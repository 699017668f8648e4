//! The bytecode compiler: walks the AST in evaluation order, emits
//! instructions, interns constants, allocates global slots, and
//! back-patches forward jumps.
//!
//! Every mutation of the compiler is specified by a mirror function over
//! `CompState`, so `compile_program`'s contract pins the emitted bytecode
//! exactly.

use vstd::prelude::*;
use crate::ast::{Expressions, Nodes, Statements};
use crate::bytecode::{
    opcode_of_byte, opcode_to_byte, operand_count, operand_width, spec_make, Instruction, OpCode,
};
use crate::object::ObjectType;
use crate::symbol_table::{spec_resolve, Symbol, SymbolTable};
use crate::token::string_eq_lit;
use crate::vm::GLOBAL_SIZE;

verus! {

/// The ways a compile can fail.
#[derive(Debug)]
pub enum CompileError {
    /// An identifier was read that no `let` statement defined.
    UnresolvedIdentifier { name: String },
    /// An operator spelling outside the fixed set.
    UnsupportedOperator { operator: String },
    /// A construct the core instruction set has no code path for:
    /// function literals, calls, and `return` statements.
    UnsupportedConstruct,
    /// An internal invariant would break: the slot counter is exhausted,
    /// a `let` carries a non-identifier name, the emitted code outgrows
    /// the 16-bit address space a jump operand can span, or the
    /// definitions outgrow the globals frame.
    Internal,
}

/// The spec-level image of a compile failure.
pub ghost enum CompileIssue {
    UnresolvedIdentifier(Seq<char>),
    UnsupportedOperator(Seq<char>),
    UnsupportedConstruct,
    Internal,
}

/// The returned error carries the text the spec-level failure names.
pub open spec fn err_corresponds(e: CompileError, i: CompileIssue) -> bool {
    match (e, i) {
        (
            CompileError::UnresolvedIdentifier { name },
            CompileIssue::UnresolvedIdentifier(n),
        ) => name@ == n,
        (
            CompileError::UnsupportedOperator { operator },
            CompileIssue::UnsupportedOperator(o),
        ) => operator@ == o,
        (CompileError::UnsupportedConstruct, CompileIssue::UnsupportedConstruct) => true,
        (CompileError::Internal, CompileIssue::Internal) => true,
        _ => false,
    }
}

/// The last instruction the compiler emitted: its bytes and the offset
/// it starts at.
pub struct EmitterInstruction {
    pub instruction: Instruction,
    pub position: usize,
}

impl EmitterInstruction {
    pub fn new() -> (e: EmitterInstruction)
        ensures
            e.instruction@ == Seq::<u8>::empty(),
            e.position == 0,
    {
        EmitterInstruction { instruction: Instruction(Vec::new()), position: 0 }
    }
}

/// The compiler's state, abstractly: the instruction buffer, the
/// constant pool, the symbol table as a map from names to slots with its
/// definition count, and the last two emissions (tracked for the
/// if-expression pop-removal rule).
pub ghost struct CompState {
    pub code: Seq<u8>,
    pub consts: Seq<ObjectType>,
    pub syms: Map<Seq<char>, nat>,
    pub nsyms: nat,
    pub last_bytes: Seq<u8>,
    pub last_pos: nat,
    pub prev_bytes: Seq<u8>,
    pub prev_pos: nat,
}

/// The symbol-table entries as a map from names to slot indices.
pub open spec fn abs_syms(entries: Seq<Symbol>) -> Map<Seq<char>, nat>
    decreases entries.len(),
{
    if entries.len() == 0 {
        Map::<Seq<char>, nat>::empty()
    } else {
        abs_syms(entries.drop_last()).insert(
            entries.last().name@,
            entries.last().index as nat,
        )
    }
}

/// With unique names, the map view agrees with sequential resolution.
pub proof fn lemma_resolve_abs(entries: Seq<Symbol>, name: Seq<char>)
    ensures
        match spec_resolve(entries, name) {
            Some(sym) => abs_syms(entries).dom().contains(name) && abs_syms(entries)[name]
                == sym.index as nat,
            None => !abs_syms(entries).dom().contains(name),
        },
    decreases entries.len(),
{
    if entries.len() > 0 {
        lemma_resolve_abs(entries.drop_last(), name);
    }
}

/// The state after appending one encoded instruction.
pub open spec fn emit_state(s: CompState, op: OpCode, operands: Seq<usize>) -> CompState {
    let ins = spec_make(op, operands);
    CompState {
        code: s.code + ins,
        prev_bytes: s.last_bytes,
        prev_pos: s.last_pos,
        last_bytes: ins,
        last_pos: s.code.len(),
        ..s
    }
}

/// The state after interning one constant.
pub open spec fn add_const_state(s: CompState, value: ObjectType) -> CompState {
    CompState { consts: s.consts.push(value), ..s }
}

/// The state after defining a name: the next slot is bound to it and the
/// definition count advances.
pub open spec fn define_state(s: CompState, name: Seq<char>) -> CompState {
    CompState { syms: s.syms.insert(name, s.nsyms), nsyms: s.nsyms + 1, ..s }
}

/// A byte buffer with `bytes` written over positions `at ..`.
pub open spec fn spec_splice(code: Seq<u8>, at: nat, bytes: Seq<u8>) -> Seq<u8> {
    Seq::new(
        code.len(),
        |i: int|
            if at <= i < at + bytes.len() {
                bytes[i - at]
            } else {
                code[i]
            },
    )
}

/// The state after re-encoding the operand of the instruction at
/// `position`.  Positions that do not hold an operand-carrying opcode
/// wholly inside the buffer are left unchanged.
pub open spec fn change_operand_state(s: CompState, position: nat, operand: usize) -> CompState {
    if position < s.code.len() {
        match opcode_of_byte(s.code[position as int]) {
            Some(op) => if operand_width(op) == 2 && position + 3 <= s.code.len() {
                CompState {
                    code: spec_splice(s.code, position, spec_make(op, seq![operand])),
                    ..s
                }
            } else {
                s
            },
            None => s,
        }
    } else {
        s
    }
}

/// Whether the last emitted instruction was `OpPop`.
pub open spec fn spec_is_last_pop(s: CompState) -> bool {
    s.last_bytes.len() > 0 && s.last_bytes[0] == 2
}

/// The state after truncating the last emitted instruction (an `OpPop`
/// a block left behind): the buffer is cut back to where it started and
/// the previously emitted instruction becomes the last one.
pub open spec fn remove_last_pop_state(s: CompState) -> CompState {
    CompState {
        code: s.code.take(s.last_pos as int),
        last_bytes: s.prev_bytes,
        last_pos: s.prev_pos,
        ..s
    }
}

/// A defined name re-binds in the map view exactly as an insertion.
pub proof fn lemma_define_abs(
    old_entries: Seq<Symbol>,
    new_entries: Seq<Symbol>,
    name: Seq<char>,
    sym: Symbol,
)
    requires
        sym.name@ == name,
        spec_resolve(new_entries, name) == Some(sym),
        forall|other: Seq<char>|
            other != name ==> spec_resolve(new_entries, other) == spec_resolve(
                old_entries,
                other,
            ),
    ensures
        abs_syms(new_entries) =~= abs_syms(old_entries).insert(name, sym.index as nat),
{
    let m_new = abs_syms(new_entries);
    let target = abs_syms(old_entries).insert(name, sym.index as nat);
    assert forall|k: Seq<char>| #[trigger]
        m_new.dom().contains(k) implies target.dom().contains(k) && m_new[k] == target[k] by {
        lemma_resolve_abs(new_entries, k);
        lemma_resolve_abs(old_entries, k);
    }
    assert forall|k: Seq<char>| #[trigger]
        target.dom().contains(k) implies m_new.dom().contains(k) by {
        lemma_resolve_abs(new_entries, k);
        lemma_resolve_abs(old_entries, k);
    }
    assert(m_new =~= target);
}

/// What compiling an expression does to the state: the bytecode emitted
/// for each expression form, or the failure it surfaces.  The `<`
/// operator compiles its operands swapped and reuses `OpGreaterThan`;
/// an `if` back-patches its two forward jumps; function literals and
/// calls have no code path in the core instruction set.
pub open spec fn spec_compile_expr(e: Expressions, s: CompState) -> Result<
    CompState,
    CompileIssue,
>
    decreases e,
{
    match e {
        Expressions::IntegerLiteral { value, .. } => {
            let s1 = add_const_state(s, ObjectType::Integer(value as i64));
            Ok(emit_state(s1, OpCode::OpConstant, seq![s.consts.len() as usize]))
        },
        Expressions::Boolean { value, .. } => if value {
            Ok(emit_state(s, OpCode::OpTrue, Seq::<usize>::empty()))
        } else {
            Ok(emit_state(s, OpCode::OpFalse, Seq::<usize>::empty()))
        },
        Expressions::Identifier { value, .. } => if s.syms.dom().contains(value@) {
            Ok(emit_state(s, OpCode::OpGetGlobal, seq![s.syms[value@] as usize]))
        } else {
            Err(CompileIssue::UnresolvedIdentifier(value@))
        },
        Expressions::Prefix { operator, right, .. } => match spec_compile_expr(*right, s) {
            Ok(s1) => if operator@ == "!"@ {
                Ok(emit_state(s1, OpCode::OpBang, Seq::<usize>::empty()))
            } else if operator@ == "-"@ {
                Ok(emit_state(s1, OpCode::OpMinus, Seq::<usize>::empty()))
            } else {
                Err(CompileIssue::UnsupportedOperator(operator@))
            },
            Err(err) => Err(err),
        },
        Expressions::Infix { left, operator, right, .. } => if operator@ == "<"@ {
            match spec_compile_expr(*right, s) {
                Ok(s1) => match spec_compile_expr(*left, s1) {
                    Ok(s2) => Ok(emit_state(s2, OpCode::OpGreaterThan, Seq::<usize>::empty())),
                    Err(err) => Err(err),
                },
                Err(err) => Err(err),
            }
        } else {
            match spec_compile_expr(*left, s) {
                Ok(s1) => match spec_compile_expr(*right, s1) {
                    Ok(s2) => if operator@ == "+"@ {
                        Ok(emit_state(s2, OpCode::OpAdd, Seq::<usize>::empty()))
                    } else if operator@ == "-"@ {
                        Ok(emit_state(s2, OpCode::OpSub, Seq::<usize>::empty()))
                    } else if operator@ == "*"@ {
                        Ok(emit_state(s2, OpCode::OpMul, Seq::<usize>::empty()))
                    } else if operator@ == "/"@ {
                        Ok(emit_state(s2, OpCode::OpDiv, Seq::<usize>::empty()))
                    } else if operator@ == "=="@ {
                        Ok(emit_state(s2, OpCode::OpEqual, Seq::<usize>::empty()))
                    } else if operator@ == "!="@ {
                        Ok(emit_state(s2, OpCode::OpNotEqual, Seq::<usize>::empty()))
                    } else if operator@ == ">"@ {
                        Ok(emit_state(s2, OpCode::OpGreaterThan, Seq::<usize>::empty()))
                    } else {
                        Err(CompileIssue::UnsupportedOperator(operator@))
                    },
                    Err(err) => Err(err),
                },
                Err(err) => Err(err),
            }
        },
        Expressions::IfExpression { condition, consequence, alternative, .. } => {
            match spec_compile_expr(*condition, s) {
                Ok(s1) => {
                    let jnt_pos = s1.code.len();
                    let s2 = emit_state(s1, OpCode::OpJumpNotTruthy, seq![9999usize]);
                    match spec_compile_stmt(*consequence, s2) {
                        Ok(s3) => {
                            let s4 = if spec_is_last_pop(s3) {
                                remove_last_pop_state(s3)
                            } else {
                                s3
                            };
                            let jump_pos = s4.code.len();
                            let s5 = emit_state(s4, OpCode::OpJump, seq![999usize]);
                            let s6 = change_operand_state(s5, jnt_pos, s5.code.len() as usize);
                            match alternative {
                                None => {
                                    let s7 = emit_state(s6, OpCode::OpNull, Seq::<usize>::empty());
                                    Ok(
                                        change_operand_state(
                                            s7,
                                            jump_pos,
                                            s7.code.len() as usize,
                                        ),
                                    )
                                },
                                Some(alt) => match spec_compile_stmt(*alt, s6) {
                                    Ok(s7) => {
                                        let s8 = if spec_is_last_pop(s7) {
                                            remove_last_pop_state(s7)
                                        } else {
                                            s7
                                        };
                                        Ok(
                                            change_operand_state(
                                                s8,
                                                jump_pos,
                                                s8.code.len() as usize,
                                            ),
                                        )
                                    },
                                    Err(err) => Err(err),
                                },
                            }
                        },
                        Err(err) => Err(err),
                    }
                },
                Err(err) => Err(err),
            }
        },
        _ => Err(CompileIssue::UnsupportedConstruct),
    }
}

/// What compiling a statement does to the state: a block compiles its
/// children in order; a `let` compiles its right-hand side, allocates
/// the next slot, and stores into it; `return` has no code path in the
/// core.
pub open spec fn spec_compile_stmt(st: Statements, s: CompState) -> Result<
    CompState,
    CompileIssue,
>
    decreases st,
{
    match st {
        Statements::BlockStatements { statements, .. } => spec_compile_nodes(statements@, s),
        Statements::Let { name, value, .. } => match name {
            Expressions::Identifier { value: bind, .. } => match spec_compile_expr(value, s) {
                Ok(s1) => if s1.nsyms >= usize::MAX as nat {
                    Err(CompileIssue::Internal)
                } else {
                    Ok(
                        emit_state(
                            define_state(s1, bind@),
                            OpCode::OpSetGlobal,
                            seq![s1.nsyms as usize],
                        ),
                    )
                },
                Err(err) => Err(err),
            },
            _ => Err(CompileIssue::Internal),
        },
        Statements::Return { .. } => Err(CompileIssue::UnsupportedConstruct),
    }
}

/// What compiling a node does to the state: an expression-statement is
/// compiled and followed by `OpPop`, so the stack is balanced at
/// statement boundaries.
pub open spec fn spec_compile_node(n: Nodes, s: CompState) -> Result<CompState, CompileIssue>
    decreases n,
{
    match n {
        Nodes::Expression(e) => match spec_compile_expr(e, s) {
            Ok(s1) => Ok(emit_state(s1, OpCode::OpPop, Seq::<usize>::empty())),
            Err(err) => Err(err),
        },
        Nodes::Statement(st) => spec_compile_stmt(st, s),
    }
}

/// What compiling a node list does to the state, first to last,
/// stopping at the first failure.
pub open spec fn spec_compile_nodes(v: Seq<Nodes>, s: CompState) -> Result<
    CompState,
    CompileIssue,
>
    decreases v,
{
    if v.len() == 0 {
        Ok(s)
    } else {
        match spec_compile_node(v[0], s) {
            Ok(s1) => spec_compile_nodes(v.drop_first(), s1),
            Err(err) => Err(err),
        }
    }
}

/// The compiler: the growing instruction buffer, the constant pool, the
/// symbol table, and the last two emissions.
pub struct Compiler {
    pub instruction: Instruction,
    pub constant: Vec<ObjectType>,
    pub symbols: SymbolTable,
    pub last_instruction: EmitterInstruction,
    pub previous_instruction: EmitterInstruction,
}

/// The bytecode object a compile produces: the instruction buffer and
/// the constant pool, handed to the virtual machine.
pub struct Bytecode {
    pub instruction: Instruction,
    pub constant: Vec<ObjectType>,
}

impl Compiler {
    /// The symbol table is sound and the emission bookkeeping points
    /// into the buffer.
    pub open spec fn wf(self) -> bool {
        &&& self.symbols.wf()
        &&& self.previous_instruction.position <= self.last_instruction.position
        &&& self.last_instruction.position <= self.instruction@.len()
    }

    /// This compiler's state, abstractly.
    pub open spec fn state(self) -> CompState {
        CompState {
            code: self.instruction@,
            consts: self.constant@,
            syms: abs_syms(self.symbols.store@),
            nsyms: self.symbols.num_definition as nat,
            last_bytes: self.last_instruction.instruction@,
            last_pos: self.last_instruction.position as nat,
            prev_bytes: self.previous_instruction.instruction@,
            prev_pos: self.previous_instruction.position as nat,
        }
    }

    /// A fresh compiler: empty buffer, empty pool, empty symbol table.
    pub fn new() -> (c: Compiler)
        ensures
            c.wf(),
            c.state().code == Seq::<u8>::empty(),
            c.state().consts == Seq::<ObjectType>::empty(),
            c.state().syms =~= Map::<Seq<char>, nat>::empty(),
            c.state().nsyms == 0,
            c.state().last_bytes == Seq::<u8>::empty(),
            c.state().last_pos == 0,
            c.state().prev_bytes == Seq::<u8>::empty(),
            c.state().prev_pos == 0,
    {
        Compiler {
            instruction: Instruction(Vec::new()),
            constant: Vec::new(),
            symbols: SymbolTable::new(),
            last_instruction: EmitterInstruction::new(),
            previous_instruction: EmitterInstruction::new(),
        }
    }

    /// A compiler that continues an earlier session: it keeps the given
    /// symbol table and constant pool, as the interactive loop does
    /// across inputs.
    pub fn new_with_state(symbols: SymbolTable, constant: Vec<ObjectType>) -> (c: Compiler)
        requires
            symbols.wf(),
        ensures
            c.wf(),
            c.state().code == Seq::<u8>::empty(),
            c.state().consts == constant@,
            c.state().syms == abs_syms(symbols.store@),
            c.state().nsyms == symbols.num_definition as nat,
            c.state().last_bytes == Seq::<u8>::empty(),
            c.state().last_pos == 0,
            c.state().prev_bytes == Seq::<u8>::empty(),
            c.state().prev_pos == 0,
    {
        Compiler {
            instruction: Instruction(Vec::new()),
            constant,
            symbols,
            last_instruction: EmitterInstruction::new(),
            previous_instruction: EmitterInstruction::new(),
        }
    }

    /// Interns a constant and returns its pool index.
    fn add_constant(&mut self, constant: ObjectType) -> (idx: usize)
        requires
            old(self).wf(),
        ensures
            final(self).wf(),
            final(self).state() == add_const_state(old(self).state(), constant),
            idx == old(self).constant@.len(),
    {
        self.constant.push(constant);
        proof {
            assert(final(self).state() =~= add_const_state(old(self).state(), constant));
        }
        self.constant.len() - 1
    }

    /// Appends encoded bytes to the buffer and returns the offset they
    /// start at.
    fn add_instruction(&mut self, instruction: &Instruction) -> (pos: usize)
        requires
            old(self).wf(),
        ensures
            final(self).wf(),
            final(self).instruction@ == old(self).instruction@ + instruction@,
            final(self).constant == old(self).constant,
            final(self).symbols == old(self).symbols,
            final(self).last_instruction == old(self).last_instruction,
            final(self).previous_instruction == old(self).previous_instruction,
            pos == old(self).instruction@.len(),
    {
        let pos_new_instruction = self.instruction.0.len();
        let mut i: usize = 0;
        let n = instruction.0.len();
        while i < n
            invariant
                n == instruction.0@.len(),
                i <= n,
                self.instruction.0@ == old(self).instruction.0@ + instruction.0@.take(i as int),
                self.constant == old(self).constant,
                self.symbols == old(self).symbols,
                self.last_instruction == old(self).last_instruction,
                self.previous_instruction == old(self).previous_instruction,
            decreases n - i,
        {
            self.instruction.0.push(instruction.0[i]);
            proof {
                assert(self.instruction.0@ =~= old(self).instruction.0@ + instruction.0@.take(
                    i + 1 as int,
                ));
            }
            i = i + 1;
        }
        proof {
            assert(self.instruction.0@ =~= old(self).instruction.0@ + instruction.0@);
        }
        pos_new_instruction
    }

    /// Records an emission as the latest one.
    fn register_instruction(&mut self, instruction: Instruction, position: usize)
        requires
            old(self).wf(),
            position <= old(self).instruction@.len(),
            old(self).last_instruction.position <= position,
        ensures
            final(self).wf(),
            final(self).instruction == old(self).instruction,
            final(self).constant == old(self).constant,
            final(self).symbols == old(self).symbols,
            final(self).last_instruction.instruction@ == instruction@,
            final(self).last_instruction.position == position,
            final(self).previous_instruction.instruction@ == old(
                self,
            ).last_instruction.instruction@,
            final(self).previous_instruction.position == old(self).last_instruction.position,
    {
        let emitted_instruction = EmitterInstruction { instruction, position };
        let prev = EmitterInstruction {
            instruction: self.last_instruction.instruction.clone(),
            position: self.last_instruction.position,
        };
        self.previous_instruction = prev;
        self.last_instruction = emitted_instruction;
    }

    /// Encodes one instruction, appends it, and records it as the latest
    /// emission; returns its offset.
    fn emit(&mut self, opcode: OpCode, operands: Vec<usize>) -> (pos: usize)
        requires
            old(self).wf(),
            operands@.len() == operand_count(opcode),
        ensures
            final(self).wf(),
            final(self).state() == emit_state(old(self).state(), opcode, operands@),
            pos == old(self).instruction@.len(),
    {
        let instruction = match crate::bytecode::make(&opcode, &operands) {
            Some(ins) => ins,
            None => {
                proof {
                    assert(false);
                }
                Instruction(Vec::new())
            },
        };
        let pos = self.add_instruction(&instruction);
        self.register_instruction(instruction, pos);
        proof {
            assert(final(self).state() =~= emit_state(old(self).state(), opcode, operands@));
        }
        pos
    }

    /// Overwrites the bytes at `position` with an already-encoded
    /// instruction of the same width.
    fn remplace_instruction(&mut self, position: usize, instruction: &Instruction)
        requires
            old(self).wf(),
            position + instruction@.len() <= old(self).instruction@.len(),
        ensures
            final(self).wf(),
            final(self).instruction@ == spec_splice(
                old(self).instruction@,
                position as nat,
                instruction@,
            ),
            final(self).constant == old(self).constant,
            final(self).symbols == old(self).symbols,
            final(self).last_instruction == old(self).last_instruction,
            final(self).previous_instruction == old(self).previous_instruction,
    {
        let n = instruction.0.len();
        let total = self.instruction.0.len();
        let mut i: usize = 0;
        while i < n
            invariant
                n == instruction.0@.len(),
                i <= n,
                total == self.instruction.0@.len(),
                position + n <= self.instruction.0@.len(),
                self.instruction.0@.len() == old(self).instruction.0@.len(),
                forall|j: int|
                    0 <= j < self.instruction.0@.len() ==> self.instruction.0@[j] == (if position
                        <= j < position + i {
                        instruction.0@[j - position]
                    } else {
                        old(self).instruction.0@[j]
                    }),
                self.constant == old(self).constant,
                self.symbols == old(self).symbols,
                self.last_instruction == old(self).last_instruction,
                self.previous_instruction == old(self).previous_instruction,
            decreases n - i,
        {
            self.instruction.0.set(position + i, instruction.0[i]);
            i = i + 1;
        }
        proof {
            assert(self.instruction@ =~= spec_splice(
                old(self).instruction@,
                position as nat,
                instruction@,
            ));
        }
    }

    /// Re-encodes the operand of the jump instruction at `position`,
    /// leaving the buffer unchanged when the position does not hold an
    /// operand-carrying opcode.
    fn change_operhand(&mut self, position: usize, operhand: usize)
        requires
            old(self).wf(),
        ensures
            final(self).wf(),
            final(self).state() == change_operand_state(
                old(self).state(),
                position as nat,
                operhand,
            ),
    {
        if position >= self.instruction.0.len() {
            return ;
        }
        let byte = self.instruction.0[position];
        match crate::bytecode::opcode_from_byte(byte) {
            None => (),
            Some(opcode) => {
                let mut operands: Vec<usize> = Vec::new();
                operands.push(operhand);
                match crate::bytecode::make(&opcode, &operands) {
                    Some(new_instruction) => {
                        if self.instruction.0.len() - position > 2 {
                            self.remplace_instruction(position, &new_instruction);
                            proof {
                                assert(final(self).state() =~= change_operand_state(
                                    old(self).state(),
                                    position as nat,
                                    operhand,
                                ));
                            }
                        }
                    },
                    None => (),
                }
            },
        }
    }

    /// Whether the most recent emission was an `OpPop`.
    fn is_last_instruction_pop(&self) -> (r: bool)
        ensures
            r == spec_is_last_pop(self.state()),
    {
        if self.last_instruction.instruction.0.len() == 0 {
            return false;
        }
        self.last_instruction.instruction.0[0] == opcode_to_byte(&OpCode::OpPop)
    }

    /// Truncates the trailing `OpPop` of the most recent emission, so a
    /// block's last expression keeps its value on the stack.
    fn remove_last_pop(&mut self)
        requires
            old(self).wf(),
        ensures
            final(self).wf(),
            final(self).state() == remove_last_pop_state(old(self).state()),
    {
        self.instruction.0.truncate(self.last_instruction.position);
        let last = EmitterInstruction {
            instruction: self.previous_instruction.instruction.clone(),
            position: self.previous_instruction.position,
        };
        self.last_instruction = last;
        proof {
            assert(final(self).state() =~= remove_last_pop_state(old(self).state()));
        }
    }

    /// Compiles a program: each node in order, stopping at the first
    /// failure.  On success the emitted bytecode and the grown constant
    /// pool and symbol table are exactly what `spec_compile_nodes` maps
    /// the starting state to, the buffer fits the 16-bit address space a
    /// back-patched jump operand can span, and every definition has a
    /// slot inside the globals frame; a program past either bound is
    /// refused, since its jump targets or global slots could not be
    /// encoded faithfully.
    pub fn compile_program(&mut self, nodes: Vec<Nodes>) -> (r: Result<(), CompileError>)
        requires
            old(self).wf(),
        ensures
            final(self).wf(),
            match r {
                Ok(_) => spec_compile_nodes(nodes@, old(self).state()) == Ok::<
                    CompState,
                    CompileIssue,
                >(final(self).state()) && final(self).instruction@.len() <= 0xFFFF
                    && final(self).symbols.num_definition <= GLOBAL_SIZE,
                Err(e) => match spec_compile_nodes(nodes@, old(self).state()) {
                    Ok(s1) => e is Internal && final(self).state() == s1 && (s1.code.len()
                        > 0xFFFF || s1.nsyms > GLOBAL_SIZE),
                    Err(i) => err_corresponds(e, i),
                },
            },
    {
        match self.compile_nodes_list(&nodes) {
            Ok(_) => {
                if self.instruction.0.len() > 0xFFFF || self.symbols.num_definition
                    > GLOBAL_SIZE {
                    Err(CompileError::Internal)
                } else {
                    Ok(())
                }
            },
            Err(e) => Err(e),
        }
    }

    /// Compiles a node list in order, stopping at the first failure.
    fn compile_nodes_list(&mut self, nodes: &Vec<Nodes>) -> (r: Result<(), CompileError>)
        requires
            old(self).wf(),
        ensures
            final(self).wf(),
            match r {
                Ok(_) => spec_compile_nodes(nodes@, old(self).state()) == Ok::<
                    CompState,
                    CompileIssue,
                >(final(self).state()),
                Err(e) => (spec_compile_nodes(nodes@, old(self).state()) matches Err(i)
                    && err_corresponds(e, i)),
            },
        decreases nodes@, 2int,
    {
        let n = nodes.len();
        let mut i: usize = 0;
        proof {
            assert(nodes@.skip(0) =~= nodes@);
        }
        while i < n
            invariant
                self.wf(),
                n == nodes@.len(),
                i <= n,
                spec_compile_nodes(nodes@, old(self).state()) == spec_compile_nodes(
                    nodes@.skip(i as int),
                    self.state(),
                ),
            decreases n - i,
        {
            match self.compile_node(&nodes[i]) {
                Ok(_) => (),
                Err(e) => {
                    proof {
                        assert(nodes@.skip(i as int)[0] == nodes@[i as int]);
                    }
                    return Err(e);
                },
            }
            proof {
                assert(nodes@.skip(i as int)[0] == nodes@[i as int]);
                assert(nodes@.skip(i as int).drop_first() =~= nodes@.skip(i + 1 as int));
            }
            i = i + 1;
        }
        proof {
            assert(nodes@.skip(n as int) =~= Seq::<Nodes>::empty());
        }
        Ok(())
    }

    /// Compiles one node; an expression-statement gets a trailing
    /// `OpPop`.
    fn compile_node(&mut self, node: &Nodes) -> (r: Result<(), CompileError>)
        requires
            old(self).wf(),
        ensures
            final(self).wf(),
            match r {
                Ok(_) => spec_compile_node(*node, old(self).state()) == Ok::<
                    CompState,
                    CompileIssue,
                >(final(self).state()),
                Err(e) => (spec_compile_node(*node, old(self).state()) matches Err(i)
                    && err_corresponds(e, i)),
            },
        decreases node, 1int,
    {
        match node {
            Nodes::Expression(e) => {
                match self.compile_expression(e) {
                    Ok(_) => (),
                    Err(err) => {
                        return Err(err);
                    },
                }
                self.emit(OpCode::OpPop, Vec::new());
                Ok(())
            },
            Nodes::Statement(s) => self.compile_statement(s),
        }
    }

    /// Compiles one statement.
    fn compile_statement(&mut self, statement: &Statements) -> (r: Result<(), CompileError>)
        requires
            old(self).wf(),
        ensures
            final(self).wf(),
            match r {
                Ok(_) => spec_compile_stmt(*statement, old(self).state()) == Ok::<
                    CompState,
                    CompileIssue,
                >(final(self).state()),
                Err(e) => (spec_compile_stmt(*statement, old(self).state()) matches Err(i)
                    && err_corresponds(e, i)),
            },
        decreases statement, 1int,
    {
        match statement {
            Statements::BlockStatements { token: _, statements } => self.compile_nodes_list(
                statements,
            ),
            Statements::Let { token: _, name, value } => {
                match name {
                    Expressions::Identifier { token: _, value: bind } => {
                        match self.compile_expression(value) {
                            Ok(_) => (),
                            Err(err) => {
                                return Err(err);
                            },
                        }
                        if self.symbols.num_definition == usize::MAX {
                            return Err(CompileError::Internal);
                        }
                        let ghost pre_tab = self.symbols;
                        let sym = self.symbols.define(bind.clone());
                        proof {
                            let post_tab = self.symbols;
                            assert forall|other: Seq<char>| other != bind@ implies spec_resolve(
                                post_tab.store@,
                                other,
                            ) == spec_resolve(pre_tab.store@, other) by {
                                assert(post_tab.spec_lookup(other) == pre_tab.spec_lookup(other));
                            }
                            lemma_define_abs(pre_tab.store@, post_tab.store@, bind@, sym);
                        }
                        let mut operands: Vec<usize> = Vec::new();
                        operands.push(sym.index);
                        self.emit(OpCode::OpSetGlobal, operands);
                        Ok(())
                    },
                    _ => Err(CompileError::Internal),
                }
            },
            Statements::Return { .. } => Err(CompileError::UnsupportedConstruct),
        }
    }

    /// Compiles one expression.
    fn compile_expression(&mut self, expression: &Expressions) -> (r: Result<(), CompileError>)
        requires
            old(self).wf(),
        ensures
            final(self).wf(),
            match r {
                Ok(_) => spec_compile_expr(*expression, old(self).state()) == Ok::<
                    CompState,
                    CompileIssue,
                >(final(self).state()),
                Err(e) => (spec_compile_expr(*expression, old(self).state()) matches Err(i)
                    && err_corresponds(e, i)),
            },
        decreases expression, 1int,
    {
        match expression {
            Expressions::IntegerLiteral { token: _, value } => {
                let integer_object = ObjectType::Integer(*value as i64);
                let idx = self.add_constant(integer_object);
                let mut operands: Vec<usize> = Vec::new();
                operands.push(idx);
                self.emit(OpCode::OpConstant, operands);
                Ok(())
            },
            Expressions::Boolean { token: _, value } => {
                if *value {
                    self.emit(OpCode::OpTrue, Vec::new());
                } else {
                    self.emit(OpCode::OpFalse, Vec::new());
                }
                Ok(())
            },
            Expressions::Identifier { token: _, value } => {
                proof {
                    lemma_resolve_abs(self.symbols.store@, value@);
                }
                let idx_found: Option<usize> = match self.symbols.resolve(value) {
                    Some(symbol) => Some(symbol.index),
                    None => None,
                };
                match idx_found {
                    Some(idx) => {
                        let mut operands: Vec<usize> = Vec::new();
                        operands.push(idx);
                        self.emit(OpCode::OpGetGlobal, operands);
                        Ok(())
                    },
                    None => Err(CompileError::UnresolvedIdentifier { name: value.clone() }),
                }
            },
            Expressions::Prefix { token: _, operator, right } => {
                match self.compile_expression(right) {
                    Ok(_) => (),
                    Err(err) => {
                        return Err(err);
                    },
                }
                if string_eq_lit(operator, "!") {
                    self.emit(OpCode::OpBang, Vec::new());
                    Ok(())
                } else if string_eq_lit(operator, "-") {
                    self.emit(OpCode::OpMinus, Vec::new());
                    Ok(())
                } else {
                    Err(CompileError::UnsupportedOperator { operator: operator.clone() })
                }
            },
            Expressions::Infix { token: _, left, operator, right } => {
                if string_eq_lit(operator, "<") {
                    match self.compile_expression(right) {
                        Ok(_) => (),
                        Err(err) => {
                            return Err(err);
                        },
                    }
                    match self.compile_expression(left) {
                        Ok(_) => (),
                        Err(err) => {
                            return Err(err);
                        },
                    }
                    self.emit(OpCode::OpGreaterThan, Vec::new());
                    Ok(())
                } else {
                    match self.compile_expression(left) {
                        Ok(_) => (),
                        Err(err) => {
                            return Err(err);
                        },
                    }
                    match self.compile_expression(right) {
                        Ok(_) => (),
                        Err(err) => {
                            return Err(err);
                        },
                    }
                    if string_eq_lit(operator, "+") {
                        self.emit(OpCode::OpAdd, Vec::new());
                        Ok(())
                    } else if string_eq_lit(operator, "-") {
                        self.emit(OpCode::OpSub, Vec::new());
                        Ok(())
                    } else if string_eq_lit(operator, "*") {
                        self.emit(OpCode::OpMul, Vec::new());
                        Ok(())
                    } else if string_eq_lit(operator, "/") {
                        self.emit(OpCode::OpDiv, Vec::new());
                        Ok(())
                    } else if string_eq_lit(operator, "==") {
                        self.emit(OpCode::OpEqual, Vec::new());
                        Ok(())
                    } else if string_eq_lit(operator, "!=") {
                        self.emit(OpCode::OpNotEqual, Vec::new());
                        Ok(())
                    } else if string_eq_lit(operator, ">") {
                        self.emit(OpCode::OpGreaterThan, Vec::new());
                        Ok(())
                    } else {
                        Err(CompileError::UnsupportedOperator { operator: operator.clone() })
                    }
                }
            },
            Expressions::IfExpression { token: _, condition, consequence, alternative } => {
                match self.compile_expression(condition) {
                    Ok(_) => (),
                    Err(err) => {
                        return Err(err);
                    },
                }
                let mut jnt_operands: Vec<usize> = Vec::new();
                jnt_operands.push(9999);
                let jump_not_truthy_pos = self.emit(OpCode::OpJumpNotTruthy, jnt_operands);
                match self.compile_statement(consequence) {
                    Ok(_) => (),
                    Err(err) => {
                        return Err(err);
                    },
                }
                if self.is_last_instruction_pop() {
                    self.remove_last_pop();
                }
                let mut jump_operands: Vec<usize> = Vec::new();
                jump_operands.push(999);
                let jump_pos = self.emit(OpCode::OpJump, jump_operands);
                let after_consequence_offset = self.instruction.0.len();
                self.change_operhand(jump_not_truthy_pos, after_consequence_offset);
                match alternative {
                    None => {
                        self.emit(OpCode::OpNull, Vec::new());
                    },
                    Some(alt) => {
                        match self.compile_statement(alt) {
                            Ok(_) => (),
                            Err(err) => {
                                return Err(err);
                            },
                        }
                        if self.is_last_instruction_pop() {
                            self.remove_last_pop();
                        }
                    },
                }
                let after_alternative_offset = self.instruction.0.len();
                self.change_operhand(jump_pos, after_alternative_offset);
                Ok(())
            },
            _ => Err(CompileError::UnsupportedConstruct),
        }
    }

    /// The compiled artifact: a copy of the instruction buffer and the
    /// constant pool.
    pub fn bytecode(&self) -> (b: Bytecode)
        ensures
            b.instruction@ == self.instruction@,
            b.constant@ == self.constant@,
    {
        let instruction = self.instruction.clone();
        let mut constant: Vec<ObjectType> = Vec::new();
        let n = self.constant.len();
        let mut i: usize = 0;
        while i < n
            invariant
                n == self.constant@.len(),
                i <= n,
                constant@ == self.constant@.take(i as int),
            decreases n - i,
        {
            constant.push(self.constant[i]);
            proof {
                assert(constant@ =~= self.constant@.take(i + 1 as int));
            }
            i = i + 1;
        }
        proof {
            assert(constant@ =~= self.constant@);
        }
        Bytecode { instruction, constant }
    }
}

} // verus!
