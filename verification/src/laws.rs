//! Proven laws of the pipeline, stated over the compiler's and the
//! machine's specification functions.
//!
//! Each law here is proved for every admissible input of its statement;
//! the codec round-trip law lives beside the codec in `bytecode`.

use vstd::prelude::*;
use crate::ast::{
    expr_view, node_view, nodes_view, token_view, tokens_view, ExprV, Expressions, NodeV, Nodes,
    Statements, TokenV,
};
use crate::decimal::{all_digits, dec_digits, lemma_dec_digits_val, spec_digits_val};
use crate::lexer::{lemma_token_stream_digits, spec_token_stream};
use crate::parser::{
    spec_advance, spec_parse_expression, spec_parse_integer, spec_parse_prefix,
    spec_parse_program_from, spec_parse_statement, spec_peek_at, spec_pratt, PREC_LOWEST,
};
use crate::token::TokenTypes;
use crate::bytecode::{
    instr_size, lemma_opcode_byte_round_trip, opcode_of_byte, opcode_value, operand_count,
    operand_width, spec_make, spec_read_u16, OpCode,
};
use crate::compiler::{
    add_const_state, change_operand_state, define_state, emit_state, remove_last_pop_state,
    spec_compile_expr, spec_compile_node, spec_compile_nodes, spec_compile_stmt,
    spec_is_last_pop, CompState, CompileIssue,
};
use crate::object::ObjectType;
use crate::token::Token;
use crate::vm::{spec_run_from, wf_code_from, VmOutcome, VmState};

verus! {


/// Code well-formedness over the segment `[i, j)`: every position the
/// segment's execution can reach decodes, operand bytes lie within the
/// segment, constant and global indices are in range, and jumps land
/// strictly forward and inside the segment.
pub open spec fn wf_seg(code: Seq<u8>, i: nat, j: nat, nc: nat, ng: nat) -> bool
    decreases j - i,
{
    if i >= j {
        i == j
    } else {
        match opcode_of_byte(code[i as int]) {
            None => false,
            Some(op) => {
                &&& i + instr_size(op) <= j
                &&& (op == OpCode::OpConstant ==> spec_read_u16(code, i + 1 as int) < nc)
                &&& (op == OpCode::OpSetGlobal || op == OpCode::OpGetGlobal ==> spec_read_u16(
                    code,
                    i + 1 as int,
                ) < ng)
                &&& (op == OpCode::OpJump || op == OpCode::OpJumpNotTruthy ==> {
                    let t = spec_read_u16(code, i + 1 as int) as nat;
                    t > i && t <= j && wf_seg(code, t, j, nc, ng)
                })
                &&& wf_seg(code, i + instr_size(op), j, nc, ng)
            },
        }
    }
}

/// A segment that spans to the end of the buffer is exactly what the
/// machine's well-formedness predicate asks for.
pub proof fn lemma_wf_seg_is_wf_code(code: Seq<u8>, i: nat, nc: nat, ng: nat)
    requires
        i <= code.len(),
    ensures
        wf_seg(code, i, code.len(), nc, ng) <==> wf_code_from(code, i, nc, ng),
    decreases code.len() - i,
{
    if i < code.len() {
        match opcode_of_byte(code[i as int]) {
            None => (),
            Some(op) => {
                if i + instr_size(op) <= code.len() {
                    lemma_wf_seg_is_wf_code(code, i + instr_size(op), nc, ng);
                    if op == OpCode::OpJump || op == OpCode::OpJumpNotTruthy {
                        let t = spec_read_u16(code, i + 1 as int) as nat;
                        if t > i && t <= code.len() {
                            lemma_wf_seg_is_wf_code(code, t, nc, ng);
                        }
                    }
                }
            },
        }
    }
}

/// Adjacent well-formed segments compose.
pub proof fn lemma_wf_seg_concat(code: Seq<u8>, i: nat, j: nat, k: nat, nc: nat, ng: nat)
    requires
        i <= j <= k,
        wf_seg(code, i, j, nc, ng),
        wf_seg(code, j, k, nc, ng),
    ensures
        wf_seg(code, i, k, nc, ng),
    decreases j - i,
{
    if i < j {
        match opcode_of_byte(code[i as int]) {
            None => (),
            Some(op) => {
                lemma_wf_seg_concat(code, i + instr_size(op), j, k, nc, ng);
                if op == OpCode::OpJump || op == OpCode::OpJumpNotTruthy {
                    let t = spec_read_u16(code, i + 1 as int) as nat;
                    lemma_wf_seg_concat(code, t, j, k, nc, ng);
                }
            },
        }
    }
}

/// Segment well-formedness reads only the segment's own bytes.
pub proof fn lemma_wf_seg_frame(
    code1: Seq<u8>,
    code2: Seq<u8>,
    i: nat,
    j: nat,
    nc: nat,
    ng: nat,
)
    requires
        j <= code1.len(),
        j <= code2.len(),
        forall|x: int| i <= x < j ==> code1[x] == code2[x],
        wf_seg(code1, i, j, nc, ng),
    ensures
        wf_seg(code2, i, j, nc, ng),
    decreases j - i,
{
    if i < j {
        match opcode_of_byte(code1[i as int]) {
            None => (),
            Some(op) => {
                if instr_size(op) == 3 {
                    assert(code1[i + 1 as int] == code2[i + 1 as int]);
                    assert(code1[i + 2 as int] == code2[i + 2 as int]);
                }
                lemma_wf_seg_frame(code1, code2, i + instr_size(op), j, nc, ng);
                if op == OpCode::OpJump || op == OpCode::OpJumpNotTruthy {
                    let t = spec_read_u16(code1, i + 1 as int) as nat;
                    lemma_wf_seg_frame(code1, code2, t, j, nc, ng);
                }
            },
        }
    }
}

/// Segment well-formedness survives growing the constant pool or the
/// globals bound.
pub proof fn lemma_wf_seg_mono(
    code: Seq<u8>,
    i: nat,
    j: nat,
    nc: nat,
    ng: nat,
    nc2: nat,
    ng2: nat,
)
    requires
        wf_seg(code, i, j, nc, ng),
        nc <= nc2,
        ng <= ng2,
    ensures
        wf_seg(code, i, j, nc2, ng2),
    decreases j - i,
{
    if i < j {
        match opcode_of_byte(code[i as int]) {
            None => (),
            Some(op) => {
                lemma_wf_seg_mono(code, i + instr_size(op), j, nc, ng, nc2, ng2);
                if op == OpCode::OpJump || op == OpCode::OpJumpNotTruthy {
                    let t = spec_read_u16(code, i + 1 as int) as nat;
                    lemma_wf_seg_mono(code, t, j, nc, ng, nc2, ng2);
                }
            },
        }
    }
}

/// Reading back a 16-bit operand written by `make` yields the operand
/// reduced modulo 2^16 (exactly the operand, whenever it fits).
pub proof fn lemma_read_of_make(op: OpCode, x: usize)
    requires
        operand_width(op) == 2,
    ensures
        spec_read_u16(spec_make(op, seq![x]), 1) == (x as int) % 0x10000,
        (x as int) % 0x10000 <= x,
{
    let b = spec_make(op, seq![x]);
    assert(b[1] == crate::bytecode::be_hi(x as int) && b[2] == crate::bytecode::be_lo(x as int));
    vstd::arithmetic::div_mod::lemma_mod_breakdown(x as int, 256, 256);
    vstd::arithmetic::div_mod::lemma_mod_decreases(x as nat, 0x10000);
}

/// Every slot index the symbol map holds is below the definition count,
/// which itself fits the machine (the compiler reports an internal error
/// rather than exhaust it).
pub open spec fn syms_bounded(s: CompState) -> bool {
    &&& s.nsyms <= usize::MAX
    &&& forall|k: Seq<char>| s.syms.dom().contains(k) ==> #[trigger] s.syms[k] < s.nsyms
}

/// The bookkeeping every compile step guarantees: the buffer grows and
/// keeps its old bytes, the pools grow, and the last-emission record
/// describes the tail of the buffer.  When the step ends in an `OpPop`,
/// the previous-emission record describes the instruction right before
/// it, which is never itself an `OpPop`.
pub open spec fn grows_to(s: CompState, s1: CompState) -> bool {
    let base = s.code.len();
    &&& s1.code.len() >= base
    &&& (forall|x: int| 0 <= x < base ==> s1.code[x] == s.code[x])
    &&& s1.consts.len() >= s.consts.len()
    &&& s1.nsyms >= s.nsyms
    &&& (s1.code.len() == base ==> s1.code == s.code && s1.last_bytes == s.last_bytes
        && s1.last_pos == s.last_pos && s1.prev_bytes == s.prev_bytes && s1.prev_pos
        == s.prev_pos)
    &&& (s1.code.len() > base ==> {
        &&& base <= s1.last_pos
        &&& s1.last_pos + s1.last_bytes.len() == s1.code.len()
        &&& 1 <= s1.last_bytes.len() <= 3
    })
    &&& (s1.code.len() > base && spec_is_last_pop(s1) ==> {
        &&& s1.last_bytes == seq![2u8]
        &&& base <= s1.prev_pos
        &&& s1.prev_pos + s1.prev_bytes.len() == s1.last_pos
        &&& 1 <= s1.prev_bytes.len() <= 3
        &&& s1.prev_bytes[0] != 2
    })
}

/// The length of the buffer not counting a trailing `OpPop` (the byte a
/// block's pop-removal may truncate): back-patched jump operands never
/// exceed this, so they are stored exactly whenever it fits in 16 bits.
pub open spec fn settled_len(s1: CompState) -> int {
    if spec_is_last_pop(s1) {
        s1.last_pos as int
    } else {
        s1.code.len() as int
    }
}

/// The well-formedness every compile step guarantees of what it emitted,
/// provided the whole buffer stays within a 16-bit address space (so
/// back-patched jump operands are stored exactly).  When the step ends
/// in an `OpPop`, the segment is also well-formed up to that pop, so a
/// block may truncate it.
pub open spec fn seg_ok(s: CompState, s1: CompState) -> bool {
    let base = s.code.len();
    &&& wf_seg(s1.code, base, s1.code.len(), s1.consts.len(), s1.nsyms)
    &&& (s1.code.len() > base && spec_is_last_pop(s1) ==> wf_seg(
        s1.code,
        base,
        s1.last_pos,
        s1.consts.len(),
        s1.nsyms,
    ))
}

/// `grows_to` composes.
pub proof fn lemma_grows_trans(s: CompState, s1: CompState, s2: CompState)
    requires
        grows_to(s, s1),
        grows_to(s1, s2),
    ensures
        grows_to(s, s2),
{
}

/// One appended instruction (never a jump or a pop) leaves a well-formed
/// singleton segment at the end of the buffer.
proof fn lemma_emit_wf(s: CompState, op: OpCode, operands: Seq<usize>)
    requires
        op != OpCode::OpJump,
        op != OpCode::OpJumpNotTruthy,
        op != OpCode::OpPop,
        operands.len() == operand_count(op),
        op == OpCode::OpConstant ==> operands[0] < s.consts.len(),
        op == OpCode::OpSetGlobal || op == OpCode::OpGetGlobal ==> operands[0] < s.nsyms,
    ensures
        ({
            let s1 = emit_state(s, op, operands);
            &&& grows_to(s, s1)
            &&& s1.code.len() == s.code.len() + instr_size(op)
            &&& s1.consts == s.consts
            &&& s1.syms == s.syms
            &&& s1.nsyms == s.nsyms
            &&& !spec_is_last_pop(s1)
            &&& wf_seg(s1.code, s.code.len(), s1.code.len(), s.consts.len(), s.nsyms)
        }),
{
    let base = s.code.len();
    let bytes = spec_make(op, operands);
    let s1 = emit_state(s, op, operands);
    assert(bytes.len() == instr_size(op));
    assert(s1.code[base as int] == opcode_value(op));
    lemma_opcode_byte_round_trip(op);
    assert(opcode_value(op) != 2);
    if operand_width(op) == 2 {
        lemma_read_of_make(op, operands[0]);
        assert(s1.code[base + 1 as int] == bytes[1]);
        assert(s1.code[base + 2 as int] == bytes[2]);
        assert(spec_read_u16(s1.code, base + 1 as int) == spec_read_u16(bytes, 1));
    }
    assert(wf_seg(s1.code, (base + instr_size(op)) as nat, s1.code.len(), s.consts.len(), s.nsyms));
    assert(wf_seg(s1.code, base, s1.code.len(), s.consts.len(), s.nsyms));
}

/// Appending one operand-free instruction to one compiled operand
/// leaves a well-formed segment.
proof fn lemma_unop_finish(s: CompState, sr: CompState, op: OpCode)
    requires
        op != OpCode::OpJump,
        op != OpCode::OpJumpNotTruthy,
        op != OpCode::OpPop,
        op != OpCode::OpConstant,
        op != OpCode::OpSetGlobal,
        op != OpCode::OpGetGlobal,
        operand_count(op) == 0,
        grows_to(s, sr),
        sr.code.len() > s.code.len(),
        sr.code.len() <= 0xFFFF ==> wf_seg(
            sr.code,
            s.code.len(),
            sr.code.len(),
            sr.consts.len(),
            sr.nsyms,
        ),
    ensures
        ({
            let s1 = emit_state(sr, op, Seq::<usize>::empty());
            &&& grows_to(s, s1)
            &&& s1.code.len() > s.code.len()
            &&& !spec_is_last_pop(s1)
            &&& (s1.code.len() <= 0xFFFF ==> wf_seg(
                s1.code,
                s.code.len(),
                s1.code.len(),
                s1.consts.len(),
                s1.nsyms,
            ))
        }),
{
    let base = s.code.len();
    lemma_emit_wf(sr, op, Seq::<usize>::empty());
    let s1 = emit_state(sr, op, Seq::<usize>::empty());
    lemma_grows_trans(s, sr, s1);
    if s1.code.len() <= 0xFFFF {
        assert(sr.code.len() <= 0xFFFF);
        lemma_wf_seg_frame(sr.code, s1.code, base, sr.code.len(), sr.consts.len(), sr.nsyms);
        lemma_wf_seg_concat(
            s1.code,
            base,
            sr.code.len(),
            s1.code.len(),
            sr.consts.len(),
            sr.nsyms,
        );
        lemma_wf_seg_mono(
            s1.code,
            base,
            s1.code.len(),
            sr.consts.len(),
            sr.nsyms,
            s1.consts.len(),
            s1.nsyms,
        );
    }
}

/// Appending one operand-free instruction to two compiled operands
/// leaves a well-formed segment.
proof fn lemma_binop_finish(s: CompState, sa: CompState, sb: CompState, op: OpCode)
    requires
        op != OpCode::OpJump,
        op != OpCode::OpJumpNotTruthy,
        op != OpCode::OpPop,
        op != OpCode::OpConstant,
        op != OpCode::OpSetGlobal,
        op != OpCode::OpGetGlobal,
        operand_count(op) == 0,
        grows_to(s, sa),
        sa.code.len() > s.code.len(),
        sa.code.len() <= 0xFFFF ==> wf_seg(
            sa.code,
            s.code.len(),
            sa.code.len(),
            sa.consts.len(),
            sa.nsyms,
        ),
        grows_to(sa, sb),
        sb.code.len() > sa.code.len(),
        sb.code.len() <= 0xFFFF ==> wf_seg(
            sb.code,
            sa.code.len(),
            sb.code.len(),
            sb.consts.len(),
            sb.nsyms,
        ),
    ensures
        ({
            let s1 = emit_state(sb, op, Seq::<usize>::empty());
            &&& grows_to(s, s1)
            &&& s1.code.len() > s.code.len()
            &&& !spec_is_last_pop(s1)
            &&& (s1.code.len() <= 0xFFFF ==> wf_seg(
                s1.code,
                s.code.len(),
                s1.code.len(),
                s1.consts.len(),
                s1.nsyms,
            ))
        }),
{
    let base = s.code.len();
    lemma_emit_wf(sb, op, Seq::<usize>::empty());
    let s1 = emit_state(sb, op, Seq::<usize>::empty());
    lemma_grows_trans(s, sa, sb);
    lemma_grows_trans(s, sb, s1);
    if s1.code.len() <= 0xFFFF {
        assert(sb.code.len() <= 0xFFFF);
        assert(sa.code.len() <= 0xFFFF);
        assert(forall|x: int| 0 <= x < sa.code.len() ==> sa.code[x] == s1.code[x]);
        lemma_wf_seg_frame(sa.code, s1.code, base, sa.code.len(), sa.consts.len(), sa.nsyms);
        lemma_wf_seg_mono(
            s1.code,
            base,
            sa.code.len(),
            sa.consts.len(),
            sa.nsyms,
            s1.consts.len(),
            s1.nsyms,
        );
        lemma_wf_seg_frame(
            sb.code,
            s1.code,
            sa.code.len(),
            sb.code.len(),
            sb.consts.len(),
            sb.nsyms,
        );
        lemma_wf_seg_mono(
            s1.code,
            sa.code.len(),
            sb.code.len(),
            sb.consts.len(),
            sb.nsyms,
            s1.consts.len(),
            s1.nsyms,
        );
        lemma_wf_seg_concat(
            s1.code,
            sa.code.len(),
            sb.code.len(),
            s1.code.len(),
            s1.consts.len(),
            s1.nsyms,
        );
        lemma_wf_seg_concat(
            s1.code,
            base,
            sa.code.len(),
            s1.code.len(),
            s1.consts.len(),
            s1.nsyms,
        );
    }
}


/// Compiled expressions emit at least one instruction, never end on an
/// `OpPop`, and their segment is well-formed.
pub proof fn lemma_compile_expr_wf(e: Expressions, s: CompState)
    requires
        syms_bounded(s),
    ensures
        spec_compile_expr(e, s) matches Ok(s1) ==> {
            &&& grows_to(s, s1)
            &&& syms_bounded(s1)
            &&& s1.code.len() > s.code.len()
            &&& !spec_is_last_pop(s1)
            &&& (s1.code.len() <= 0xFFFF ==> wf_seg(
                s1.code,
                s.code.len(),
                s1.code.len(),
                s1.consts.len(),
                s1.nsyms,
            ))
        },
    decreases e, 1int,
{
    match e {
        Expressions::IntegerLiteral { value, .. } => {
            let sa = add_const_state(s, ObjectType::Integer(value as i64));
            lemma_emit_wf(sa, OpCode::OpConstant, seq![s.consts.len() as usize]);
        },
        Expressions::Boolean { value, .. } => {
            if value {
                lemma_emit_wf(s, OpCode::OpTrue, Seq::<usize>::empty());
            } else {
                lemma_emit_wf(s, OpCode::OpFalse, Seq::<usize>::empty());
            }
        },
        Expressions::Identifier { value, .. } => {
            if s.syms.dom().contains(value@) {
                lemma_emit_wf(s, OpCode::OpGetGlobal, seq![s.syms[value@] as usize]);
            }
        },
        Expressions::Prefix { operator, right, .. } => {
            lemma_compile_expr_wf(*right, s);
            match spec_compile_expr(*right, s) {
                Ok(sr) => {
                    if operator@ == "!"@ {
                        lemma_unop_finish(s, sr, OpCode::OpBang);
                    } else if operator@ == "-"@ {
                        lemma_unop_finish(s, sr, OpCode::OpMinus);
                    }
                },
                Err(_) => (),
            }
        },
        Expressions::Infix { left, operator, right, .. } => {
            if operator@ == "<"@ {
                lemma_compile_expr_wf(*right, s);
                match spec_compile_expr(*right, s) {
                    Ok(sa) => {
                        lemma_compile_expr_wf(*left, sa);
                        match spec_compile_expr(*left, sa) {
                            Ok(sb) => {
                                lemma_binop_finish(s, sa, sb, OpCode::OpGreaterThan);
                            },
                            Err(_) => (),
                        }
                    },
                    Err(_) => (),
                }
            } else {
                lemma_compile_expr_wf(*left, s);
                match spec_compile_expr(*left, s) {
                    Ok(sa) => {
                        lemma_compile_expr_wf(*right, sa);
                        match spec_compile_expr(*right, sa) {
                            Ok(sb) => {
                                if operator@ == "+"@ {
                                    lemma_binop_finish(s, sa, sb, OpCode::OpAdd);
                                } else if operator@ == "-"@ {
                                    lemma_binop_finish(s, sa, sb, OpCode::OpSub);
                                } else if operator@ == "*"@ {
                                    lemma_binop_finish(s, sa, sb, OpCode::OpMul);
                                } else if operator@ == "/"@ {
                                    lemma_binop_finish(s, sa, sb, OpCode::OpDiv);
                                } else if operator@ == "=="@ {
                                    lemma_binop_finish(s, sa, sb, OpCode::OpEqual);
                                } else if operator@ == "!="@ {
                                    lemma_binop_finish(s, sa, sb, OpCode::OpNotEqual);
                                } else if operator@ == ">"@ {
                                    lemma_binop_finish(s, sa, sb, OpCode::OpGreaterThan);
                                }
                            },
                            Err(_) => (),
                        }
                    },
                    Err(_) => (),
                }
            }
        },
        Expressions::IfExpression { .. } => {
            lemma_compile_if_wf(e, s);
        },
        _ => {
        },
    }
}

/// Finishes the `if` case when the alternative is absent: from the
/// compiled condition (`c1`) and consequence (`s3`), the emitted jumps,
/// the `OpNull`, and the two back-patches leave a well-formed segment.
#[verifier::rlimit(100)]
#[verifier::spinoff_prover]
proof fn lemma_if_finish_none(s: CompState, c1: CompState, s3: CompState)
    requires
        grows_to(s, c1),
        c1.code.len() > s.code.len(),
        !spec_is_last_pop(c1),
        c1.code.len() <= 0xFFFF ==> wf_seg(
            c1.code,
            s.code.len(),
            c1.code.len(),
            c1.consts.len(),
            c1.nsyms,
        ),
        grows_to(emit_state(c1, OpCode::OpJumpNotTruthy, seq![9999usize]), s3),
        settled_len(s3) <= 0xFFFF ==> seg_ok(
            emit_state(c1, OpCode::OpJumpNotTruthy, seq![9999usize]),
            s3,
        ),
    ensures
        ({
            let s2 = emit_state(c1, OpCode::OpJumpNotTruthy, seq![9999usize]);
            let s4 = if spec_is_last_pop(s3) {
                remove_last_pop_state(s3)
            } else {
                s3
            };
            let s5 = emit_state(s4, OpCode::OpJump, seq![999usize]);
            let s6 = change_operand_state(s5, c1.code.len(), s5.code.len() as usize);
            let s7 = emit_state(s6, OpCode::OpNull, Seq::<usize>::empty());
            let s9 = change_operand_state(s7, s4.code.len(), s7.code.len() as usize);
            &&& grows_to(s, s9)
            &&& s9.code.len() > s.code.len()
            &&& !spec_is_last_pop(s9)
            &&& (s9.code.len() <= 0xFFFF ==> wf_seg(
                s9.code,
                s.code.len(),
                s9.code.len(),
                s9.consts.len(),
                s9.nsyms,
            ))
        }),
{
    let base = s.code.len();
    let p1 = c1.code.len();
    let s2 = emit_state(c1, OpCode::OpJumpNotTruthy, seq![9999usize]);
    assert(s2.code[p1 as int] == 13);
    let s4 = if spec_is_last_pop(s3) {
        remove_last_pop_state(s3)
    } else {
        s3
    };
    if spec_is_last_pop(s3) {
        assert(s3.code.len() > s2.code.len());
    }
    assert(grows_to(s2, s4));
    assert(s4.code[p1 as int] == 13);
    let p2 = s4.code.len();
    assert(settled_len(s3) == p2);
    let s5 = emit_state(s4, OpCode::OpJump, seq![999usize]);
    assert(s5.code[p2 as int] == 14);
    assert(forall|x: int| 0 <= x < p2 ==> s5.code[x] == s4.code[x]);
    let t1 = s5.code.len();
    let s6 = change_operand_state(s5, p1, t1 as usize);
    lemma_read_of_make(OpCode::OpJumpNotTruthy, t1 as usize);
    assert(s6.code.len() == s5.code.len());
    assert(forall|x: int|
        0 <= x < s6.code.len() && !(p1 <= x < p1 + 3) ==> s6.code[x] == s5.code[x]);
    assert(s6.code[p1 as int] == 13);
    let s7 = emit_state(s6, OpCode::OpNull, Seq::<usize>::empty());
    let tend = s7.code.len();
    let s9 = change_operand_state(s7, p2, tend as usize);
    lemma_read_of_make(OpCode::OpJump, tend as usize);
    assert(s9.code.len() == tend);
    assert(forall|x: int|
        0 <= x < s9.code.len() && !(p2 <= x < p2 + 3) ==> s9.code[x] == s7.code[x]);
    assert(grows_to(s, s9));
    assert(!spec_is_last_pop(s9));
    if s9.code.len() <= 0xFFFF {
        assert(forall|x: int| 0 <= x < p2 ==> s7.code[x] == s6.code[x]);
        assert(forall|x: int| 0 <= x < p1 ==> s9.code[x] == c1.code[x]);
        assert(forall|x: int| p1 + 3 <= x < p2 ==> s9.code[x] == s4.code[x]);
        // The consequence's segment, its trailing pop cut off where one
        // was.
        assert(seg_ok(s2, s3));
        if spec_is_last_pop(s3) {
            lemma_wf_seg_frame(
                s3.code,
                s4.code,
                s2.code.len(),
                p2,
                s3.consts.len(),
                s3.nsyms,
            );
        }
        assert(wf_seg(s4.code, s2.code.len(), p2, s4.consts.len(), s4.nsyms));
        // The patched jump operands, read back.
        assert(s9.code[p1 as int] == 13);
        assert(spec_read_u16(s9.code, p1 + 1 as int) == t1);
        assert(s9.code[p2 as int] == 14);
        assert(spec_read_u16(s9.code, p2 + 1 as int) == tend);
        // The `OpNull` the absent branch leaves.
        assert(s9.code[t1 as int] == 15);
        assert(wf_seg(s9.code, tend, tend, s9.consts.len(), s9.nsyms));
        assert(wf_seg(s9.code, t1, tend, s9.consts.len(), s9.nsyms));
        lemma_if_segment_wf(s, c1, s2, s4, s9, p1, p2, t1, tend);
    }
}

/// Finishes the `if` case when an alternative is present: `s7` is the
/// compiled alternative, sitting after the consequence and the second
/// forward jump.
#[verifier::rlimit(100)]
#[verifier::spinoff_prover]
proof fn lemma_if_finish_some(s: CompState, c1: CompState, s3: CompState, s7: CompState)
    requires
        grows_to(s, c1),
        c1.code.len() > s.code.len(),
        !spec_is_last_pop(c1),
        c1.code.len() <= 0xFFFF ==> wf_seg(
            c1.code,
            s.code.len(),
            c1.code.len(),
            c1.consts.len(),
            c1.nsyms,
        ),
        grows_to(emit_state(c1, OpCode::OpJumpNotTruthy, seq![9999usize]), s3),
        settled_len(s3) <= 0xFFFF ==> seg_ok(
            emit_state(c1, OpCode::OpJumpNotTruthy, seq![9999usize]),
            s3,
        ),
        ({
            let s2 = emit_state(c1, OpCode::OpJumpNotTruthy, seq![9999usize]);
            let s4 = if spec_is_last_pop(s3) {
                remove_last_pop_state(s3)
            } else {
                s3
            };
            let s5 = emit_state(s4, OpCode::OpJump, seq![999usize]);
            let s6 = change_operand_state(s5, c1.code.len(), s5.code.len() as usize);
            &&& grows_to(s6, s7)
            &&& (settled_len(s7) <= 0xFFFF ==> seg_ok(s6, s7))
        }),
    ensures
        ({
            let s2 = emit_state(c1, OpCode::OpJumpNotTruthy, seq![9999usize]);
            let s4 = if spec_is_last_pop(s3) {
                remove_last_pop_state(s3)
            } else {
                s3
            };
            let s5 = emit_state(s4, OpCode::OpJump, seq![999usize]);
            let s6 = change_operand_state(s5, c1.code.len(), s5.code.len() as usize);
            let s8 = if spec_is_last_pop(s7) {
                remove_last_pop_state(s7)
            } else {
                s7
            };
            let s9 = change_operand_state(s8, s4.code.len(), s8.code.len() as usize);
            &&& grows_to(s, s9)
            &&& s9.code.len() > s.code.len()
            &&& !spec_is_last_pop(s9)
            &&& (s9.code.len() <= 0xFFFF ==> wf_seg(
                s9.code,
                s.code.len(),
                s9.code.len(),
                s9.consts.len(),
                s9.nsyms,
            ))
        }),
{
    let base = s.code.len();
    let p1 = c1.code.len();
    let s2 = emit_state(c1, OpCode::OpJumpNotTruthy, seq![9999usize]);
    assert(s2.code[p1 as int] == 13);
    let s4 = if spec_is_last_pop(s3) {
        remove_last_pop_state(s3)
    } else {
        s3
    };
    if spec_is_last_pop(s3) {
        assert(s3.code.len() > s2.code.len());
    }
    assert(grows_to(s2, s4));
    assert(s4.code[p1 as int] == 13);
    let p2 = s4.code.len();
    assert(settled_len(s3) == p2);
    let s5 = emit_state(s4, OpCode::OpJump, seq![999usize]);
    assert(s5.code[p2 as int] == 14);
    assert(forall|x: int| 0 <= x < p2 ==> s5.code[x] == s4.code[x]);
    let t1 = s5.code.len();
    let s6 = change_operand_state(s5, p1, t1 as usize);
    lemma_read_of_make(OpCode::OpJumpNotTruthy, t1 as usize);
    assert(s6.code.len() == s5.code.len());
    assert(forall|x: int|
        0 <= x < s6.code.len() && !(p1 <= x < p1 + 3) ==> s6.code[x] == s5.code[x]);
    assert(s6.code[p1 as int] == 13);
    let s8 = if spec_is_last_pop(s7) {
        remove_last_pop_state(s7)
    } else {
        s7
    };
    if spec_is_last_pop(s7) {
        assert(s7.code.len() > s6.code.len());
    }
    assert(grows_to(s6, s8));
    let tend = s8.code.len();
    assert(settled_len(s7) == tend);
    let s9 = change_operand_state(s8, p2, tend as usize);
    lemma_read_of_make(OpCode::OpJump, tend as usize);
    assert(forall|x: int| 0 <= x < t1 ==> s8.code[x] == s6.code[x]);
    assert(s8.code[p2 as int] == 14);
    assert(s9.code.len() == tend);
    assert(forall|x: int|
        0 <= x < s9.code.len() && !(p2 <= x < p2 + 3) ==> s9.code[x] == s8.code[x]);
    assert(grows_to(s, s9));
    assert(!spec_is_last_pop(s9));
    if s9.code.len() <= 0xFFFF {
        assert(forall|x: int| 0 <= x < p1 ==> s9.code[x] == c1.code[x]);
        assert(forall|x: int| p1 + 3 <= x < p2 ==> s9.code[x] == s4.code[x]);
        // The consequence's segment.
        assert(seg_ok(s2, s3));
        if spec_is_last_pop(s3) {
            lemma_wf_seg_frame(
                s3.code,
                s4.code,
                s2.code.len(),
                p2,
                s3.consts.len(),
                s3.nsyms,
            );
        }
        assert(wf_seg(s4.code, s2.code.len(), p2, s4.consts.len(), s4.nsyms));
        // The alternative's segment, its trailing pop cut off where one
        // was.
        assert(seg_ok(s6, s7));
        if spec_is_last_pop(s7) {
            lemma_wf_seg_frame(s7.code, s8.code, t1, tend, s7.consts.len(), s7.nsyms);
        }
        assert(wf_seg(s8.code, t1, tend, s8.consts.len(), s8.nsyms));
        lemma_wf_seg_frame(s8.code, s9.code, t1, tend, s8.consts.len(), s8.nsyms);
        lemma_wf_seg_mono(
            s9.code,
            t1,
            tend,
            s8.consts.len(),
            s8.nsyms,
            s9.consts.len(),
            s9.nsyms,
        );
        // The patched jump operands.
        assert(s9.code[p1 as int] == 13);
        assert(spec_read_u16(s9.code, p1 + 1 as int) == t1);
        assert(s9.code[p2 as int] == 14);
        assert(spec_read_u16(s9.code, p2 + 1 as int) == tend);
        lemma_if_segment_wf(s, c1, s2, s4, s9, p1, p2, t1, tend);
    }
}

/// The `if` case of `lemma_compile_expr_wf`: the two back-patched jumps
/// land strictly forward, on the alternative and on the end of the
/// expression's segment.
proof fn lemma_compile_if_wf(e: Expressions, s: CompState)
    requires
        syms_bounded(s),
        e is IfExpression,
    ensures
        spec_compile_expr(e, s) matches Ok(s1) ==> {
            &&& grows_to(s, s1)
            &&& syms_bounded(s1)
            &&& s1.code.len() > s.code.len()
            &&& !spec_is_last_pop(s1)
            &&& (s1.code.len() <= 0xFFFF ==> wf_seg(
                s1.code,
                s.code.len(),
                s1.code.len(),
                s1.consts.len(),
                s1.nsyms,
            ))
        },
    decreases e, 0int,
{
    match e {
        Expressions::IfExpression { condition, consequence, alternative, .. } => {
            lemma_compile_expr_wf(*condition, s);
            match spec_compile_expr(*condition, s) {
                Ok(c1) => {
                    let s2 = emit_state(c1, OpCode::OpJumpNotTruthy, seq![9999usize]);
                    lemma_compile_stmt_wf(*consequence, s2);
                    match spec_compile_stmt(*consequence, s2) {
                        Ok(s3) => {
                            let s4 = if spec_is_last_pop(s3) {
                                remove_last_pop_state(s3)
                            } else {
                                s3
                            };
                            let s5 = emit_state(s4, OpCode::OpJump, seq![999usize]);
                            let s6 = change_operand_state(
                                s5,
                                c1.code.len(),
                                s5.code.len() as usize,
                            );
                            match alternative {
                                None => {
                                    lemma_if_finish_none(s, c1, s3);
                                    let s7 = emit_state(s6, OpCode::OpNull, Seq::<usize>::empty());
                                    let s9 = change_operand_state(
                                        s7,
                                        s4.code.len(),
                                        s7.code.len() as usize,
                                    );
                                    assert(spec_compile_expr(e, s) == Ok::<
                                        CompState,
                                        CompileIssue,
                                    >(s9));
                                    assert(syms_bounded(s9));
                                },
                                Some(alt) => {
                                    lemma_compile_stmt_wf(*alt, s6);
                                    match spec_compile_stmt(*alt, s6) {
                                        Ok(s7) => {
                                            lemma_if_finish_some(s, c1, s3, s7);
                                            let s8 = if spec_is_last_pop(s7) {
                                                remove_last_pop_state(s7)
                                            } else {
                                                s7
                                            };
                                            let s9 = change_operand_state(
                                                s8,
                                                s4.code.len(),
                                                s8.code.len() as usize,
                                            );
                                            assert(spec_compile_expr(e, s) == Ok::<
                                                CompState,
                                                CompileIssue,
                                            >(s9));
                                            assert(syms_bounded(s9));
                                        },
                                        Err(_) => (),
                                    }
                                },
                            }
                        },
                        Err(_) => (),
                    }
                },
                Err(_) => (),
            }
        },
        _ => (),
    }
}

/// The shared skeleton of an `if` expression's segment: the condition,
/// the patched conditional jump, the consequence, and the patched
/// unconditional jump are well-formed from `base` up to the end, given
/// what stands from the alternative's start `t1`.
proof fn lemma_if_segment_wf(
    s: CompState,
    sc: CompState,
    sj: CompState,
    sk: CompState,
    sfin: CompState,
    p1: nat,
    p2: nat,
    t1: nat,
    t2: nat,
)
    requires
        sfin.code.len() <= 0xFFFF,
        s.code.len() <= p1,
        p1 == sc.code.len(),
        p1 + 3 == sj.code.len(),
        sj.code.len() <= sk.code.len(),
        p2 == sk.code.len(),
        t1 == p2 + 3,
        t1 <= t2,
        t2 == sfin.code.len(),
        // the condition's segment
        wf_seg(sc.code, s.code.len(), p1, sc.consts.len(), sc.nsyms),
        sc.consts.len() <= sfin.consts.len(),
        sc.nsyms <= sfin.nsyms,
        forall|x: int| 0 <= x < p1 ==> sfin.code[x] == sc.code[x],
        // the consequence's segment
        wf_seg(sk.code, sj.code.len(), p2, sk.consts.len(), sk.nsyms),
        sk.consts.len() <= sfin.consts.len(),
        sk.nsyms <= sfin.nsyms,
        forall|x: int| p1 + 3 <= x < p2 ==> sfin.code[x] == sk.code[x],
        // the two patched jumps
        sfin.code[p1 as int] == 13,
        spec_read_u16(sfin.code, p1 + 1 as int) == t1,
        sfin.code[p2 as int] == 14,
        spec_read_u16(sfin.code, p2 + 1 as int) == t2,
        // what stands from the alternative's start
        wf_seg(sfin.code, t1, t2, sfin.consts.len(), sfin.nsyms),
    ensures
        wf_seg(sfin.code, s.code.len(), t2, sfin.consts.len(), sfin.nsyms),
{
    let base = s.code.len();
    let code = sfin.code;
    let nc = sfin.consts.len();
    let ng = sfin.nsyms;
    // The unconditional jump at `p2` goes to the very end; its static
    // fall-through is what starts at `t1`.
    assert(wf_seg(code, t2, t2, nc, ng));
    assert(opcode_of_byte(14) == Some(OpCode::OpJump));
    assert(wf_seg(code, p2, t2, nc, ng));
    // The consequence, transported onto the final buffer, then extended
    // by the jump.
    lemma_wf_seg_frame(sk.code, code, sj.code.len(), p2, sk.consts.len(), sk.nsyms);
    lemma_wf_seg_mono(code, sj.code.len(), p2, sk.consts.len(), sk.nsyms, nc, ng);
    lemma_wf_seg_concat(code, sj.code.len(), p2, t2, nc, ng);
    // The conditional jump at `p1`: falls through to the consequence,
    // jumps to what starts at `t1`.
    assert(opcode_of_byte(13) == Some(OpCode::OpJumpNotTruthy));
    assert(wf_seg(code, p1, t2, nc, ng));
    // The condition, transported and extended by all of the above.
    lemma_wf_seg_frame(sc.code, code, base, p1, sc.consts.len(), sc.nsyms);
    lemma_wf_seg_mono(code, base, p1, sc.consts.len(), sc.nsyms, nc, ng);
    lemma_wf_seg_concat(code, base, p1, t2, nc, ng);
}

/// Compiled statements leave a well-formed segment behind.
pub proof fn lemma_compile_stmt_wf(st: Statements, s: CompState)
    requires
        syms_bounded(s),
    ensures
        spec_compile_stmt(st, s) matches Ok(s1) ==> {
            &&& grows_to(s, s1)
            &&& syms_bounded(s1)
            &&& (settled_len(s1) <= 0xFFFF ==> seg_ok(s, s1))
        },
    decreases st, 1int,
{
    let base = s.code.len();
    match st {
        Statements::BlockStatements { statements, .. } => {
            lemma_compile_nodes_wf(statements@, s);
        },
        Statements::Let { name, value, .. } => {
            match name {
                Expressions::Identifier { value: bind, .. } => {
                    lemma_compile_expr_wf(value, s);
                    match spec_compile_expr(value, s) {
                        Ok(sv) => {
                            if sv.nsyms < usize::MAX as nat {
                                let sd = define_state(sv, bind@);
                                assert(syms_bounded(sd));
                                lemma_emit_wf(sd, OpCode::OpSetGlobal, seq![sv.nsyms as usize]);
                                let s1 = emit_state(
                                    sd,
                                    OpCode::OpSetGlobal,
                                    seq![sv.nsyms as usize],
                                );
                                if s1.code.len() <= 0xFFFF {
                                    lemma_wf_seg_frame(
                                        sv.code,
                                        s1.code,
                                        base,
                                        sv.code.len(),
                                        sv.consts.len(),
                                        sv.nsyms,
                                    );
                                    lemma_wf_seg_mono(
                                        s1.code,
                                        base,
                                        sv.code.len(),
                                        sv.consts.len(),
                                        sv.nsyms,
                                        s1.consts.len(),
                                        s1.nsyms,
                                    );
                                    lemma_wf_seg_mono(
                                        s1.code,
                                        sv.code.len(),
                                        s1.code.len(),
                                        sd.consts.len(),
                                        sd.nsyms,
                                        s1.consts.len(),
                                        s1.nsyms,
                                    );
                                    lemma_wf_seg_concat(
                                        s1.code,
                                        base,
                                        sv.code.len(),
                                        s1.code.len(),
                                        s1.consts.len(),
                                        s1.nsyms,
                                    );
                                }
                                assert(!spec_is_last_pop(s1));
                            }
                        },
                        Err(_) => (),
                    }
                },
                _ => (),
            }
        },
        Statements::Return { .. } => (),
    }
}

/// One compiled node leaves a well-formed segment behind; an
/// expression-statement's segment ends on its balancing `OpPop`.
pub proof fn lemma_compile_node_wf(n: Nodes, s: CompState)
    requires
        syms_bounded(s),
    ensures
        spec_compile_node(n, s) matches Ok(s1) ==> {
            &&& grows_to(s, s1)
            &&& syms_bounded(s1)
            &&& (settled_len(s1) <= 0xFFFF ==> seg_ok(s, s1))
        },
    decreases n, 1int,
{
    let base = s.code.len();
    match n {
        Nodes::Expression(e) => {
            lemma_compile_expr_wf(e, s);
            match spec_compile_expr(e, s) {
                Ok(se) => {
                    let s1 = emit_state(se, OpCode::OpPop, Seq::<usize>::empty());
                    assert(s1.code[se.code.len() as int] == 2);
                    lemma_opcode_byte_round_trip(OpCode::OpPop);
                    assert(s1.last_bytes =~= seq![2u8]);
                    assert(grows_to(s, s1));
                    assert(settled_len(s1) == se.code.len());
                    if settled_len(s1) <= 0xFFFF {
                        lemma_wf_seg_frame(
                            se.code,
                            s1.code,
                            base,
                            se.code.len(),
                            se.consts.len(),
                            se.nsyms,
                        );
                        lemma_wf_seg_mono(
                            s1.code,
                            base,
                            se.code.len(),
                            se.consts.len(),
                            se.nsyms,
                            s1.consts.len(),
                            s1.nsyms,
                        );
                        assert(wf_seg(
                            s1.code,
                            s1.code.len(),
                            s1.code.len(),
                            s1.consts.len(),
                            s1.nsyms,
                        ));
                        assert(wf_seg(
                            s1.code,
                            se.code.len(),
                            s1.code.len(),
                            s1.consts.len(),
                            s1.nsyms,
                        ));
                        lemma_wf_seg_concat(
                            s1.code,
                            base,
                            se.code.len(),
                            s1.code.len(),
                            s1.consts.len(),
                            s1.nsyms,
                        );
                    }
                },
                Err(_) => (),
            }
        },
        Nodes::Statement(st) => {
            lemma_compile_stmt_wf(st, s);
        },
    }
}

/// A compiled node list leaves a well-formed segment behind.
pub proof fn lemma_compile_nodes_wf(v: Seq<Nodes>, s: CompState)
    requires
        syms_bounded(s),
    ensures
        spec_compile_nodes(v, s) matches Ok(s1) ==> {
            &&& grows_to(s, s1)
            &&& syms_bounded(s1)
            &&& (settled_len(s1) <= 0xFFFF ==> seg_ok(s, s1))
        },
    decreases v, 1int,
{
    let base = s.code.len();
    if v.len() > 0 {
        lemma_compile_node_wf(v[0], s);
        match spec_compile_node(v[0], s) {
            Ok(sa) => {
                lemma_compile_nodes_wf(v.drop_first(), sa);
                match spec_compile_nodes(v.drop_first(), sa) {
                    Ok(s1) => {
                        assert(grows_to(s, s1));
                        if settled_len(s1) <= 0xFFFF {
                            if s1.code.len() == sa.code.len() {
                                // The tail emitted nothing.
                                assert(settled_len(sa) == settled_len(s1));
                                assert(seg_ok(s, sa));
                                if sa.code.len() > base {
                                    lemma_wf_seg_mono(
                                        sa.code,
                                        base,
                                        sa.code.len(),
                                        sa.consts.len(),
                                        sa.nsyms,
                                        s1.consts.len(),
                                        s1.nsyms,
                                    );
                                    if spec_is_last_pop(sa) {
                                        lemma_wf_seg_mono(
                                            sa.code,
                                            base,
                                            sa.last_pos,
                                            sa.consts.len(),
                                            sa.nsyms,
                                            s1.consts.len(),
                                            s1.nsyms,
                                        );
                                    }
                                }
                                assert(seg_ok(s, s1));
                            } else {
                                // The tail emitted code after the first
                                // node's segment.
                                assert(sa.code.len() <= settled_len(s1));
                                if sa.code.len() > base {
                                    assert(settled_len(sa) <= sa.code.len());
                                    assert(seg_ok(s, sa));
                                    lemma_wf_seg_frame(
                                        sa.code,
                                        s1.code,
                                        base,
                                        sa.code.len(),
                                        sa.consts.len(),
                                        sa.nsyms,
                                    );
                                    lemma_wf_seg_mono(
                                        s1.code,
                                        base,
                                        sa.code.len(),
                                        sa.consts.len(),
                                        sa.nsyms,
                                        s1.consts.len(),
                                        s1.nsyms,
                                    );
                                }
                                assert(wf_seg(
                                    s1.code,
                                    base,
                                    sa.code.len(),
                                    s1.consts.len(),
                                    s1.nsyms,
                                ));
                                assert(seg_ok(sa, s1));
                                lemma_wf_seg_concat(
                                    s1.code,
                                    base,
                                    sa.code.len(),
                                    s1.code.len(),
                                    s1.consts.len(),
                                    s1.nsyms,
                                );
                                if spec_is_last_pop(s1) {
                                    lemma_wf_seg_concat(
                                        s1.code,
                                        base,
                                        sa.code.len(),
                                        s1.last_pos,
                                        s1.consts.len(),
                                        s1.nsyms,
                                    );
                                }
                            }
                        }
                    },
                    Err(_) => (),
                }
            },
            Err(_) => (),
        }
    }
}

/// The compiler only emits code the machine's well-formedness predicate
/// accepts: whenever a program compiles into at most the 16-bit address
/// space its jump operands can span, and the globals frame has room for
/// every slot handed out, the bytecode decodes everywhere, keeps its
/// constant indices inside the pool and its global slots inside the
/// frame, and jumps strictly forward — which is exactly what `run`
/// requires, and what makes its termination provable.
pub proof fn lemma_compile_program_wf(v: Seq<Nodes>, s: CompState, ng: nat)
    requires
        syms_bounded(s),
        s.code.len() == 0,
    ensures
        spec_compile_nodes(v, s) matches Ok(s1) ==> (s1.code.len() <= 0xFFFF && s1.nsyms <= ng
            ==> wf_code_from(s1.code, 0, s1.consts.len(), ng)),
{
    lemma_compile_nodes_wf(v, s);
    match spec_compile_nodes(v, s) {
        Ok(s1) => {
            if s1.code.len() <= 0xFFFF && s1.nsyms <= ng {
                lemma_wf_seg_mono(
                    s1.code,
                    0,
                    s1.code.len(),
                    s1.consts.len(),
                    s1.nsyms,
                    s1.consts.len(),
                    ng,
                );
                lemma_wf_seg_is_wf_code(s1.code, 0, s1.consts.len(), ng);
            }
        },
        Err(_) => (),
    }
}

/// The state a fresh compiler starts from: everything empty.
pub open spec fn empty_comp_state() -> CompState {
    CompState {
        code: Seq::<u8>::empty(),
        consts: Seq::<ObjectType>::empty(),
        syms: Map::<Seq<char>, nat>::empty(),
        nsyms: 0,
        last_bytes: Seq::<u8>::empty(),
        last_pos: 0,
        prev_bytes: Seq::<u8>::empty(),
        prev_pos: 0,
    }
}

/// An integer literal that fits in 63 bits compiles, as a program of its
/// own, to `OpConstant 0` followed by `OpPop` with the value interned as
/// the only constant, and the machine evaluates that bytecode to
/// `Integer(n)` with the operand stack balanced back to depth 0.
pub proof fn lemma_integer_literal_program(
    tok: Token,
    n: u64,
    stack: Seq<ObjectType>,
    globals: Seq<ObjectType>,
)
    requires
        n < 0x8000000000000000,
        stack.len() >= 1,
    ensures
        ({
            let program = seq![
                Nodes::Expression(Expressions::IntegerLiteral { token: tok, value: n }),
            ];
            let r = spec_compile_nodes(program, empty_comp_state());
            &&& (r matches Ok(s) && s.code == seq![0u8, 0u8, 0u8, 2u8] && s.consts == seq![
                ObjectType::Integer(n as i64),
            ])
            &&& (spec_run_from(
                seq![0u8, 0u8, 0u8, 2u8],
                seq![ObjectType::Integer(n as i64)],
                VmState { ip: 0, stack, sp: 0, globals },
            ) matches VmOutcome::Done(st) && st.sp == 0 && st.stack[st.sp as int]
                == ObjectType::Integer(n as i64) && st.globals == globals)
        }),
{
    let c0 = empty_comp_state();
    let e = Expressions::IntegerLiteral { token: tok, value: n };
    let node = Nodes::Expression(e);
    let program = seq![node];

    // The compiled form, step by step.
    let s1 = add_const_state(c0, ObjectType::Integer(n as i64));
    let s2 = emit_state(s1, OpCode::OpConstant, seq![c0.consts.len() as usize]);
    assert(spec_compile_expr(e, c0) == Ok::<CompState, CompileIssue>(s2));
    let s3 = emit_state(s2, OpCode::OpPop, Seq::<usize>::empty());
    assert(spec_compile_node(node, c0) == Ok::<CompState, CompileIssue>(s3));
    assert(program.drop_first() =~= Seq::<Nodes>::empty());
    assert(spec_compile_nodes(program.drop_first(), s3) == Ok::<CompState, CompileIssue>(s3));
    assert(program[0] == node);
    assert(spec_compile_nodes(program, c0) == Ok::<CompState, CompileIssue>(s3));
    let code = seq![0u8, 0u8, 0u8, 2u8];
    assert(s3.code =~= code);
    let consts = seq![ObjectType::Integer(n as i64)];
    assert(s3.consts =~= consts);

    // The machine's two steps: push the constant, pop it.
    let st0 = VmState { ip: 0, stack, sp: 0, globals };
    let st1 = VmState {
        ip: 3,
        stack: stack.update(0, ObjectType::Integer(n as i64)),
        sp: 1,
        globals,
    };
    assert(crate::bytecode::spec_read_u16(code, 1) == 0);
    assert(spec_run_from(code, consts, st0) == spec_run_from(code, consts, st1));
    let st2 = VmState { sp: 0, ip: 4, ..st1 };
    assert(spec_run_from(code, consts, st1) == spec_run_from(code, consts, st2));
    assert(spec_run_from(code, consts, st2) == VmOutcome::Done(st2));
}

/// `a < b` and `b > a` compile to identical bytecode: the compiler
/// rewrites `<` by swapping the operands and emitting `OpGreaterThan`,
/// which is exactly what `>` emits on the swapped operands.
pub proof fn lemma_less_greater_swap(
    tok_lt: Token,
    tok_gt: Token,
    op_lt: String,
    op_gt: String,
    a: Box<Expressions>,
    b: Box<Expressions>,
    s: CompState,
)
    requires
        op_lt@ == "<"@,
        op_gt@ == ">"@,
    ensures
        spec_compile_expr(
            Expressions::Infix { token: tok_lt, left: a, operator: op_lt, right: b },
            s,
        ) == spec_compile_expr(
            Expressions::Infix { token: tok_gt, left: b, operator: op_gt, right: a },
            s,
        ),
{
    reveal_strlit("<");
    reveal_strlit(">");
    reveal_strlit("+");
    reveal_strlit("-");
    reveal_strlit("*");
    reveal_strlit("/");
    reveal_strlit("==");
    reveal_strlit("!=");
    assert((">"@)[0] == '>' && (">"@).len() == 1);
    assert(("<"@)[0] == '<');
    assert(("+"@)[0] == '+');
    assert(("-"@)[0] == '-');
    assert(("*"@)[0] == '*');
    assert(("/"@)[0] == '/');
    assert(("=="@).len() == 2);
    assert(("!="@).len() == 2);
    assert(op_gt@ != "<"@);
    assert(op_gt@ != "+"@);
    assert(op_gt@ != "-"@);
    assert(op_gt@ != "*"@);
    assert(op_gt@ != "/"@);
    assert(op_gt@ != "=="@);
    assert(op_gt@ != "!="@);
}

/// `let x = n; x;` evaluates to the same value as `n;` alone: the bound
/// integer comes back off the globals frame bit-exactly, and the stack
/// is balanced back to depth 0.  (Together with
/// `lemma_integer_literal_program`, which shows `n;` evaluates to
/// `Integer(n)`.)
pub proof fn lemma_let_binding_program(
    let_tok: Token,
    ident_tok: Token,
    int_tok: Token,
    use_tok: Token,
    bind_name: String,
    use_name: String,
    n: u64,
    stack: Seq<ObjectType>,
    globals: Seq<ObjectType>,
)
    requires
        n < 0x8000000000000000,
        stack.len() >= 1,
        globals.len() >= 1,
        use_name@ == bind_name@,
    ensures
        ({
            let program = seq![
                Nodes::Statement(
                    Statements::Let {
                        token: let_tok,
                        name: Expressions::Identifier { token: ident_tok, value: bind_name },
                        value: Expressions::IntegerLiteral { token: int_tok, value: n },
                    },
                ),
                Nodes::Expression(Expressions::Identifier { token: use_tok, value: use_name }),
            ];
            let r = spec_compile_nodes(program, empty_comp_state());
            &&& (r matches Ok(s) && s.consts == seq![ObjectType::Integer(n as i64)])
            &&& (r matches Ok(s) && spec_run_from(
                s.code,
                s.consts,
                VmState { ip: 0, stack, sp: 0, globals },
            ) matches VmOutcome::Done(st) && st.sp == 0 && st.stack[st.sp as int]
                == ObjectType::Integer(n as i64))
        }),
{
    let c0 = empty_comp_state();
    let lit = Expressions::IntegerLiteral { token: int_tok, value: n };
    let name_e = Expressions::Identifier { token: ident_tok, value: bind_name };
    let let_stmt = Statements::Let { token: let_tok, name: name_e, value: lit };
    let node1 = Nodes::Statement(let_stmt);
    let use_e = Expressions::Identifier { token: use_tok, value: use_name };
    let node2 = Nodes::Expression(use_e);
    let program = seq![node1, node2];

    // Compilation, step by step.
    let s1 = add_const_state(c0, ObjectType::Integer(n as i64));
    let s2 = emit_state(s1, OpCode::OpConstant, seq![c0.consts.len() as usize]);
    assert(spec_compile_expr(lit, c0) == Ok::<CompState, CompileIssue>(s2));
    let s3 = emit_state(
        define_state(s2, bind_name@),
        OpCode::OpSetGlobal,
        seq![s2.nsyms as usize],
    );
    assert(spec_compile_stmt(let_stmt, c0) == Ok::<CompState, CompileIssue>(s3));
    assert(spec_compile_node(node1, c0) == Ok::<CompState, CompileIssue>(s3));
    assert(s3.syms.dom().contains(use_name@) && s3.syms[use_name@] == 0);
    let s4 = emit_state(s3, OpCode::OpGetGlobal, seq![s3.syms[use_name@] as usize]);
    assert(spec_compile_expr(use_e, s3) == Ok::<CompState, CompileIssue>(s4));
    let s5 = emit_state(s4, OpCode::OpPop, Seq::<usize>::empty());
    assert(spec_compile_node(node2, s3) == Ok::<CompState, CompileIssue>(s5));

    let tail = program.drop_first();
    assert(tail =~= seq![node2]);
    assert(tail.drop_first() =~= Seq::<Nodes>::empty());
    assert(spec_compile_nodes(tail.drop_first(), s5) == Ok::<CompState, CompileIssue>(s5));
    assert(tail[0] == node2);
    assert(spec_compile_nodes(tail, s3) == Ok::<CompState, CompileIssue>(s5));
    assert(program[0] == node1);
    assert(spec_compile_nodes(program, c0) == Ok::<CompState, CompileIssue>(s5));

    let code = seq![0u8, 0u8, 0u8, 16u8, 0u8, 0u8, 17u8, 0u8, 0u8, 2u8];
    assert(s5.code =~= code);
    let consts = seq![ObjectType::Integer(n as i64)];
    assert(s5.consts =~= consts);

    // Execution: push the constant, store it, load it, pop it.
    let v = ObjectType::Integer(n as i64);
    assert(spec_read_u16(code, 1) == 0);
    assert(spec_read_u16(code, 4) == 0);
    assert(spec_read_u16(code, 7) == 0);
    let st0 = VmState { ip: 0, stack, sp: 0, globals };
    let st1 = VmState { ip: 3, stack: stack.update(0, v), sp: 1, globals };
    assert(spec_run_from(code, consts, st0) == spec_run_from(code, consts, st1));
    let g1 = globals.update(0, v);
    let st2 = VmState { ip: 6, stack: stack.update(0, v), sp: 0, globals: g1 };
    assert(spec_run_from(code, consts, st1) == spec_run_from(code, consts, st2));
    assert(stack.update(0, v).update(0, g1[0]) =~= stack.update(0, v));
    let st3 = VmState { ip: 9, stack: stack.update(0, v), sp: 1, globals: g1 };
    assert(spec_run_from(code, consts, st2) == spec_run_from(code, consts, st3));
    let st4 = VmState { ip: 10, stack: stack.update(0, v), sp: 0, globals: g1 };
    assert(spec_run_from(code, consts, st3) == spec_run_from(code, consts, st4));
    assert(spec_run_from(code, consts, st4) == VmOutcome::Done(st4));
}

/// For `if (c) { x } else { y }` with a boolean literal condition and
/// integer literal arms: when `c` is true the program evaluates to the
/// consequence's value, otherwise to the alternative's, and the stack is
/// balanced back to depth 0.
#[verifier::rlimit(100)]
#[verifier::spinoff_prover]
pub proof fn lemma_if_else_literal_program(
    e: Expressions,
    tok_x: Token,
    tok_y: Token,
    c: bool,
    x: u64,
    y: u64,
    stack: Seq<ObjectType>,
    globals: Seq<ObjectType>,
)
    requires
        x < 0x8000000000000000,
        y < 0x8000000000000000,
        stack.len() >= 1,
        e matches Expressions::IfExpression { condition, consequence, alternative, .. }
            && (*condition matches Expressions::Boolean { value: cv, .. } && cv == c) && (
        *consequence matches Statements::BlockStatements { statements: cons_stmts, .. }
            && cons_stmts@ == seq![
            Nodes::Expression(Expressions::IntegerLiteral { token: tok_x, value: x }),
        ]) && (alternative matches Some(alt) && *alt matches Statements::BlockStatements {
            statements: alt_stmts,
            ..
        } && alt_stmts@ == seq![
            Nodes::Expression(Expressions::IntegerLiteral { token: tok_y, value: y }),
        ]),
    ensures
        ({
            let r = spec_compile_nodes(seq![Nodes::Expression(e)], empty_comp_state());
            &&& (r matches Ok(s) && s.consts == seq![
                ObjectType::Integer(x as i64),
                ObjectType::Integer(y as i64),
            ])
            &&& (r matches Ok(s) && spec_run_from(
                s.code,
                s.consts,
                VmState { ip: 0, stack, sp: 0, globals },
            ) matches VmOutcome::Done(st) && st.sp == 0 && st.stack[st.sp as int] == (if c {
                ObjectType::Integer(x as i64)
            } else {
                ObjectType::Integer(y as i64)
            }))
        }),
{
    match e {
        Expressions::IfExpression { condition, consequence, alternative, .. } => {
            let c0 = empty_comp_state();
            let node = Nodes::Expression(e);
            let program = seq![node];

            // Condition.
            let op0 = if c {
                OpCode::OpTrue
            } else {
                OpCode::OpFalse
            };
            let s1 = emit_state(c0, op0, Seq::<usize>::empty());
            assert(spec_compile_expr(*condition, c0) == Ok::<CompState, CompileIssue>(s1));

            // Forward jump over the consequence, patched later.
            let s2 = emit_state(s1, OpCode::OpJumpNotTruthy, seq![9999usize]);

            // Consequence block: the literal, its trailing pop removed.
            let sa = add_const_state(s2, ObjectType::Integer(x as i64));
            let sb = emit_state(sa, OpCode::OpConstant, seq![s2.consts.len() as usize]);
            let sc = emit_state(sb, OpCode::OpPop, Seq::<usize>::empty());
            let lit_x = Expressions::IntegerLiteral { token: tok_x, value: x };
            let node_x = Nodes::Expression(lit_x);
            assert(spec_compile_expr(lit_x, s2) == Ok::<CompState, CompileIssue>(sb));
            assert(spec_compile_node(node_x, s2) == Ok::<CompState, CompileIssue>(sc));
            let cons_stmts = consequence->BlockStatements_statements;
            assert(cons_stmts@[0] == node_x);
            assert(cons_stmts@.drop_first() =~= Seq::<Nodes>::empty());
            assert(spec_compile_nodes(cons_stmts@.drop_first(), sc) == Ok::<
                CompState,
                CompileIssue,
            >(sc));
            assert(spec_compile_nodes(cons_stmts@, s2) == Ok::<CompState, CompileIssue>(sc));
            assert(spec_compile_stmt(*consequence, s2) == Ok::<CompState, CompileIssue>(sc));
            assert(spec_is_last_pop(sc));
            let s4 = remove_last_pop_state(sc);

            // Forward jump over the alternative, patched later; then the
            // first back-patch.
            let s5 = emit_state(s4, OpCode::OpJump, seq![999usize]);
            assert(s5.code.len() == 10);
            let s6 = change_operand_state(s5, s1.code.len() as nat, s5.code.len() as usize);

            // Alternative block, trailing pop removed.
            let alt = alternative->Some_0;
            let ta = add_const_state(s6, ObjectType::Integer(y as i64));
            let tb = emit_state(ta, OpCode::OpConstant, seq![s6.consts.len() as usize]);
            let tc = emit_state(tb, OpCode::OpPop, Seq::<usize>::empty());
            let lit_y = Expressions::IntegerLiteral { token: tok_y, value: y };
            let node_y = Nodes::Expression(lit_y);
            assert(spec_compile_expr(lit_y, s6) == Ok::<CompState, CompileIssue>(tb));
            assert(spec_compile_node(node_y, s6) == Ok::<CompState, CompileIssue>(tc));
            let alt_stmts = alt->BlockStatements_statements;
            assert(alt_stmts@[0] == node_y);
            assert(alt_stmts@.drop_first() =~= Seq::<Nodes>::empty());
            assert(spec_compile_nodes(alt_stmts@.drop_first(), tc) == Ok::<
                CompState,
                CompileIssue,
            >(tc));
            assert(spec_compile_nodes(alt_stmts@, s6) == Ok::<CompState, CompileIssue>(tc));
            assert(spec_compile_stmt(*alt, s6) == Ok::<CompState, CompileIssue>(tc));
            assert(spec_is_last_pop(tc));
            let s8 = remove_last_pop_state(tc);

            // Second back-patch, then the whole if-expression.
            let s9 = change_operand_state(s8, s4.code.len() as nat, s8.code.len() as usize);
            assert(spec_compile_expr(e, c0) == Ok::<CompState, CompileIssue>(s9));

            // The expression-statement's own pop.
            let sfin = emit_state(s9, OpCode::OpPop, Seq::<usize>::empty());
            assert(spec_compile_node(node, c0) == Ok::<CompState, CompileIssue>(sfin));
            assert(program.drop_first() =~= Seq::<Nodes>::empty());
            assert(spec_compile_nodes(program.drop_first(), sfin) == Ok::<
                CompState,
                CompileIssue,
            >(sfin));
            assert(program[0] == node);
            assert(spec_compile_nodes(program, c0) == Ok::<CompState, CompileIssue>(sfin));

            let b0: u8 = if c {
                6
            } else {
                7
            };
            let code = seq![
                b0, 13u8, 0u8, 10u8, 0u8, 0u8, 0u8, 14u8, 0u8, 13u8, 0u8, 0u8, 1u8, 2u8,
            ];
            assert(s6.code =~= seq![b0, 13u8, 0u8, 10u8, 0u8, 0u8, 0u8, 14u8, 3u8, 231u8]);
            assert(sfin.code =~= code);
            let consts = seq![ObjectType::Integer(x as i64), ObjectType::Integer(y as i64)];
            assert(sfin.consts =~= consts);

            // Execution.
            assert(spec_read_u16(code, 2) == 10);
            assert(spec_read_u16(code, 5) == 0);
            assert(spec_read_u16(code, 8) == 13);
            assert(spec_read_u16(code, 11) == 1);
            let st0 = VmState { ip: 0, stack, sp: 0, globals };
            let cond_v = ObjectType::Boolean(c);
            let st1 = VmState { ip: 1, stack: stack.update(0, cond_v), sp: 1, globals };
            assert(spec_run_from(code, consts, st0) == spec_run_from(code, consts, st1));
            if c {
                let vx = ObjectType::Integer(x as i64);
                let st2 = VmState { ip: 4, stack: stack.update(0, cond_v), sp: 0, globals };
                assert(spec_run_from(code, consts, st1) == spec_run_from(code, consts, st2));
                let st3 = VmState {
                    ip: 7,
                    stack: stack.update(0, cond_v).update(0, vx),
                    sp: 1,
                    globals,
                };
                assert(spec_run_from(code, consts, st2) == spec_run_from(code, consts, st3));
                let st4 = VmState { ip: 13, ..st3 };
                assert(spec_run_from(code, consts, st3) == spec_run_from(code, consts, st4));
                let st5 = VmState { sp: 0, ip: 14, ..st4 };
                assert(spec_run_from(code, consts, st4) == spec_run_from(code, consts, st5));
                assert(spec_run_from(code, consts, st5) == VmOutcome::Done(st5));
                assert(st5.stack[0] == vx);
            } else {
                let vy = ObjectType::Integer(y as i64);
                let st2 = VmState { ip: 10, stack: stack.update(0, cond_v), sp: 0, globals };
                assert(spec_run_from(code, consts, st1) == spec_run_from(code, consts, st2));
                let st3 = VmState {
                    ip: 13,
                    stack: stack.update(0, cond_v).update(0, vy),
                    sp: 1,
                    globals,
                };
                assert(spec_run_from(code, consts, st2) == spec_run_from(code, consts, st3));
                let st4 = VmState { sp: 0, ip: 14, ..st3 };
                assert(spec_run_from(code, consts, st3) == spec_run_from(code, consts, st4));
                assert(spec_run_from(code, consts, st4) == VmOutcome::Done(st4));
                assert(st4.stack[0] == vy);
            }
        },
        _ => (),
    }
}

/// For `if (c) { x }` with no alternative: a truthy literal condition
/// evaluates to the consequence's value, a falsy one to `Null`; either
/// way the stack balances back to depth 0.
#[verifier::rlimit(100)]
#[verifier::spinoff_prover]
pub proof fn lemma_if_without_else_literal_program(
    e: Expressions,
    tok_x: Token,
    c: bool,
    x: u64,
    stack: Seq<ObjectType>,
    globals: Seq<ObjectType>,
)
    requires
        x < 0x8000000000000000,
        stack.len() >= 1,
        e matches Expressions::IfExpression { condition, consequence, alternative, .. }
            && (*condition matches Expressions::Boolean { value: cv, .. } && cv == c) && (
        *consequence matches Statements::BlockStatements { statements: cons_stmts, .. }
            && cons_stmts@ == seq![
            Nodes::Expression(Expressions::IntegerLiteral { token: tok_x, value: x }),
        ]) && alternative is None,
    ensures
        ({
            let r = spec_compile_nodes(seq![Nodes::Expression(e)], empty_comp_state());
            &&& (r matches Ok(s) && s.consts == seq![ObjectType::Integer(x as i64)])
            &&& (r matches Ok(s) && spec_run_from(
                s.code,
                s.consts,
                VmState { ip: 0, stack, sp: 0, globals },
            ) matches VmOutcome::Done(st) && st.sp == 0 && st.stack[st.sp as int] == (if c {
                ObjectType::Integer(x as i64)
            } else {
                ObjectType::Null
            }))
        }),
{
    match e {
        Expressions::IfExpression { condition, consequence, alternative, .. } => {
            let c0 = empty_comp_state();
            let node = Nodes::Expression(e);
            let program = seq![node];

            let op0 = if c {
                OpCode::OpTrue
            } else {
                OpCode::OpFalse
            };
            let s1 = emit_state(c0, op0, Seq::<usize>::empty());
            assert(spec_compile_expr(*condition, c0) == Ok::<CompState, CompileIssue>(s1));
            let s2 = emit_state(s1, OpCode::OpJumpNotTruthy, seq![9999usize]);

            let sa = add_const_state(s2, ObjectType::Integer(x as i64));
            let sb = emit_state(sa, OpCode::OpConstant, seq![s2.consts.len() as usize]);
            let sc = emit_state(sb, OpCode::OpPop, Seq::<usize>::empty());
            let lit_x = Expressions::IntegerLiteral { token: tok_x, value: x };
            let node_x = Nodes::Expression(lit_x);
            assert(spec_compile_expr(lit_x, s2) == Ok::<CompState, CompileIssue>(sb));
            assert(spec_compile_node(node_x, s2) == Ok::<CompState, CompileIssue>(sc));
            let cons_stmts = consequence->BlockStatements_statements;
            assert(cons_stmts@[0] == node_x);
            assert(cons_stmts@.drop_first() =~= Seq::<Nodes>::empty());
            assert(spec_compile_nodes(cons_stmts@.drop_first(), sc) == Ok::<
                CompState,
                CompileIssue,
            >(sc));
            assert(spec_compile_nodes(cons_stmts@, s2) == Ok::<CompState, CompileIssue>(sc));
            assert(spec_compile_stmt(*consequence, s2) == Ok::<CompState, CompileIssue>(sc));
            assert(spec_is_last_pop(sc));
            let s4 = remove_last_pop_state(sc);

            let s5 = emit_state(s4, OpCode::OpJump, seq![999usize]);
            assert(s5.code.len() == 10);
            let s6 = change_operand_state(s5, s1.code.len() as nat, s5.code.len() as usize);
            let s7 = emit_state(s6, OpCode::OpNull, Seq::<usize>::empty());
            let s9 = change_operand_state(s7, s4.code.len() as nat, s7.code.len() as usize);
            assert(spec_compile_expr(e, c0) == Ok::<CompState, CompileIssue>(s9));

            let sfin = emit_state(s9, OpCode::OpPop, Seq::<usize>::empty());
            assert(spec_compile_node(node, c0) == Ok::<CompState, CompileIssue>(sfin));
            assert(program.drop_first() =~= Seq::<Nodes>::empty());
            assert(spec_compile_nodes(program.drop_first(), sfin) == Ok::<
                CompState,
                CompileIssue,
            >(sfin));
            assert(program[0] == node);
            assert(spec_compile_nodes(program, c0) == Ok::<CompState, CompileIssue>(sfin));

            let b0: u8 = if c {
                6
            } else {
                7
            };
            let code = seq![b0, 13u8, 0u8, 10u8, 0u8, 0u8, 0u8, 14u8, 0u8, 11u8, 15u8, 2u8];
            assert(s6.code =~= seq![b0, 13u8, 0u8, 10u8, 0u8, 0u8, 0u8, 14u8, 3u8, 231u8]);
            assert(sfin.code =~= code);
            let consts = seq![ObjectType::Integer(x as i64)];
            assert(sfin.consts =~= consts);

            assert(spec_read_u16(code, 2) == 10);
            assert(spec_read_u16(code, 5) == 0);
            assert(spec_read_u16(code, 8) == 11);
            let st0 = VmState { ip: 0, stack, sp: 0, globals };
            let cond_v = ObjectType::Boolean(c);
            let st1 = VmState { ip: 1, stack: stack.update(0, cond_v), sp: 1, globals };
            assert(spec_run_from(code, consts, st0) == spec_run_from(code, consts, st1));
            if c {
                let vx = ObjectType::Integer(x as i64);
                let st2 = VmState { ip: 4, stack: stack.update(0, cond_v), sp: 0, globals };
                assert(spec_run_from(code, consts, st1) == spec_run_from(code, consts, st2));
                let st3 = VmState {
                    ip: 7,
                    stack: stack.update(0, cond_v).update(0, vx),
                    sp: 1,
                    globals,
                };
                assert(spec_run_from(code, consts, st2) == spec_run_from(code, consts, st3));
                let st4 = VmState { ip: 11, ..st3 };
                assert(spec_run_from(code, consts, st3) == spec_run_from(code, consts, st4));
                let st5 = VmState { sp: 0, ip: 12, ..st4 };
                assert(spec_run_from(code, consts, st4) == spec_run_from(code, consts, st5));
                assert(spec_run_from(code, consts, st5) == VmOutcome::Done(st5));
                assert(st5.stack[0] == vx);
            } else {
                let st2 = VmState { ip: 10, stack: stack.update(0, cond_v), sp: 0, globals };
                assert(spec_run_from(code, consts, st1) == spec_run_from(code, consts, st2));
                let st3 = VmState {
                    ip: 11,
                    stack: stack.update(0, cond_v).update(0, ObjectType::Null),
                    sp: 1,
                    globals,
                };
                assert(spec_run_from(code, consts, st2) == spec_run_from(code, consts, st3));
                let st4 = VmState { sp: 0, ip: 12, ..st3 };
                assert(spec_run_from(code, consts, st3) == spec_run_from(code, consts, st4));
                assert(spec_run_from(code, consts, st4) == VmOutcome::Done(st4));
                assert(st4.stack[0] == ObjectType::Null);
            }
        },
        _ => (),
    }
}

/// The image of a node list is as long as the list.
proof fn lemma_nodes_view_len(v: Seq<Nodes>)
    ensures
        nodes_view(v).len() == v.len(),
    decreases v,
{
    if v.len() > 0 {
        lemma_nodes_view_len(v.drop_last());
    }
}

/// A token stream holding one integer literal and `EOF` parses to the
/// one-statement program holding that literal.
pub proof fn lemma_parse_integer_program(ts: Seq<Token>, n: u64)
    requires
        ts.len() == 2,
        ts[0].token_type == TokenTypes::INT,
        ts[0].litteral@.len() >= 1,
        all_digits(ts[0].litteral@),
        spec_digits_val(ts[0].litteral@) == n,
        ts[1].token_type == TokenTypes::EOF,
    ensures
        spec_parse_program_from(ts, 0).0 =~= seq![
            NodeV::Expression(ExprV::IntegerLiteral { token: token_view(ts[0]), value: n }),
        ],
        spec_parse_program_from(ts, 0).1 == 1,
{
    let lit = ExprV::IntegerLiteral { token: token_view(ts[0]), value: n };
    assert(spec_digits_val(ts[0].litteral@) <= u64::MAX);
    assert(spec_parse_integer(ts, 0) == Some(lit));
    assert(spec_parse_prefix(ts, 0) == (Some(lit), 0int));
    assert(spec_peek_at(ts, 0) == ts[1]);
    assert(spec_pratt(ts, 0, PREC_LOWEST, lit) == (Some(lit), 0int));
    assert(spec_parse_expression(ts, 0, PREC_LOWEST) == (Some(lit), 0int));
    assert(spec_parse_statement(ts, 0) == (Some(NodeV::Expression(lit)), 0int));
    assert(spec_advance(ts, 0) == 1);
    assert(spec_parse_program_from(ts, 1) == (Seq::<NodeV>::empty(), 1int));
    assert(spec_parse_program_from(ts, 0).0 =~= seq![NodeV::Expression(lit)]
        + Seq::<NodeV>::empty());
    assert(seq![NodeV::Expression(lit)] + Seq::<NodeV>::empty() =~= seq![
        NodeV::Expression(lit),
    ]);
}

/// For every integer that fits in 63 bits, the pipeline is pinned from
/// the source text on: lexing the decimal spelling of `n` yields exactly
/// its `INT` token followed by `EOF`; a token stream with that image
/// parses to the one-statement program holding the literal `n`; and that
/// program compiles to `OpConstant 0`, `OpPop` with `Integer(n)` interned
/// as the only constant, which the machine evaluates to `Integer(n)` with
/// the operand stack balanced back to depth 0.
pub proof fn lemma_integer_source_pipeline(
    n: u64,
    ts: Seq<Token>,
    nodes: Seq<Nodes>,
    stack: Seq<ObjectType>,
    globals: Seq<ObjectType>,
)
    requires
        n < 0x8000000000000000,
        tokens_view(ts) == spec_token_stream(dec_digits(n as nat), 0),
        nodes_view(nodes) == spec_parse_program_from(ts, 0).0,
        stack.len() >= 1,
    ensures
        spec_parse_program_from(ts, 0).0 =~= seq![
            NodeV::Expression(ExprV::IntegerLiteral { token: token_view(ts[0]), value: n }),
        ],
        ({
            let r = spec_compile_nodes(nodes, empty_comp_state());
            &&& (r matches Ok(s) && s.code == seq![0u8, 0u8, 0u8, 2u8] && s.consts == seq![
                ObjectType::Integer(n as i64),
            ])
            &&& (spec_run_from(
                seq![0u8, 0u8, 0u8, 2u8],
                seq![ObjectType::Integer(n as i64)],
                VmState { ip: 0, stack, sp: 0, globals },
            ) matches VmOutcome::Done(st) && st.sp == 0 && st.stack[st.sp as int]
                == ObjectType::Integer(n as i64) && st.globals == globals)
        }),
{
    let digits = dec_digits(n as nat);
    lemma_dec_digits_val(n as nat);
    lemma_token_stream_digits(digits);
    let stream = spec_token_stream(digits, 0);
    assert(stream.len() == 2);
    assert(tokens_view(ts).len() == ts.len());
    assert(ts.len() == 2);
    assert(tokens_view(ts)[0] == token_view(ts[0]));
    assert(tokens_view(ts)[1] == token_view(ts[1]));
    assert(ts[0].token_type == TokenTypes::INT);
    assert(ts[0].litteral@ == digits);
    assert(ts[1].token_type == TokenTypes::EOF);
    lemma_parse_integer_program(ts, n);
    lemma_nodes_view_len(nodes);
    assert(nodes.len() == 1);
    assert(nodes.drop_last() =~= Seq::<Nodes>::empty());
    assert(nodes.last() == nodes[0]);
    assert(nodes_view(nodes)[0] == node_view(nodes[0]));
    assert(node_view(nodes[0]) == NodeV::Expression(
        ExprV::IntegerLiteral { token: token_view(ts[0]), value: n },
    ));
    match nodes[0] {
        Nodes::Expression(e) => match e {
            Expressions::IntegerLiteral { token, value } => {
                assert(value == n);
                assert(nodes =~= seq![
                    Nodes::Expression(Expressions::IntegerLiteral { token, value: n }),
                ]);
                lemma_integer_literal_program(token, n, stack, globals);
            },
            _ => {
                assert(false);
            },
        },
        Nodes::Statement(_) => {
            assert(false);
        },
    }
}

/// An expression built only of literals, identifiers, prefix and infix
/// forms: the code compiled for these is straight-line, with no jumps,
/// no back-patching and no pop-removal.
pub open spec fn flat_expr(e: Expressions) -> bool
    decreases e,
{
    match e {
        Expressions::IntegerLiteral { .. } => true,
        Expressions::Boolean { .. } => true,
        Expressions::Identifier { .. } => true,
        Expressions::Prefix { right, .. } => flat_expr(*right),
        Expressions::Infix { left, right, .. } => flat_expr(*left) && flat_expr(*right),
        _ => false,
    }
}

/// A node whose compiled code is straight-line: an expression-statement
/// over a flat expression, or a `let` binding one.
pub open spec fn flat_node(n: Nodes) -> bool {
    match n {
        Nodes::Expression(e) => flat_expr(e),
        Nodes::Statement(st) => match st {
            Statements::Let { value, .. } => flat_expr(value),
            _ => false,
        },
    }
}

/// Every node of the program is straight-line.
pub open spec fn flat_nodes(v: Seq<Nodes>) -> bool {
    forall|i: int| 0 <= i < v.len() ==> flat_node(#[trigger] v[i])
}

/// From `st`, execution either fails at runtime, or continues exactly as
/// from some state at position `j` whose stack depth moved by `dsp`,
/// with the stack and globals capacities unchanged.
pub open spec fn runs_to_depth(
    code: Seq<u8>,
    consts: Seq<ObjectType>,
    st: VmState,
    j: nat,
    dsp: int,
) -> bool {
    ||| spec_run_from(code, consts, st) is Failed
    ||| exists|st2: VmState|
        #![trigger spec_run_from(code, consts, st2)]
        {
            &&& spec_run_from(code, consts, st2) == spec_run_from(code, consts, st)
            &&& st2.ip == j
            &&& st2.sp == st.sp + dsp
            &&& st2.sp <= st2.stack.len()
            &&& st2.stack.len() == st.stack.len()
            &&& st2.globals.len() == st.globals.len()
        }
}

/// A 16-bit operand read back out of the buffer is the operand reduced
/// modulo 2^16, which never exceeds it.
proof fn lemma_read_emitted_operand(code: Seq<u8>, p: int, x: usize)
    requires
        0 <= p,
        p + 2 < code.len() || p + 3 <= code.len(),
        code[p + 1] == crate::bytecode::be_hi(x as int),
        code[p + 2] == crate::bytecode::be_lo(x as int),
    ensures
        spec_read_u16(code, p + 1) == (x as int) % 0x10000,
        (x as int) % 0x10000 <= x,
{
    vstd::arithmetic::div_mod::lemma_mod_breakdown(x as int, 256, 256);
    vstd::arithmetic::div_mod::lemma_mod_decreases(x as nat, 0x10000);
}

/// One binary opcode steps the machine from two operands to one result,
/// or fails at runtime.
proof fn lemma_binary_step(
    code: Seq<u8>,
    consts: Seq<ObjectType>,
    st: VmState,
    op: OpCode,
)
    requires
        op == OpCode::OpAdd || op == OpCode::OpSub || op == OpCode::OpMul || op
            == OpCode::OpDiv || op == OpCode::OpEqual || op == OpCode::OpNotEqual || op
            == OpCode::OpGreaterThan,
        st.ip + 1 <= code.len(),
        code[st.ip as int] == crate::bytecode::opcode_value(op),
        st.sp >= 2,
        st.sp <= st.stack.len(),
    ensures
        runs_to_depth(code, consts, st, st.ip + 1, -1),
{
    lemma_opcode_byte_round_trip(op);
    let right = st.stack[st.sp - 1];
    let left = st.stack[st.sp - 2];
    match crate::vm::spec_binary_operation(op, left, right) {
        Ok(v) => {
            let st2 = VmState {
                ip: st.ip + 1,
                stack: st.stack.update(st.sp - 2, v),
                sp: (st.sp - 1) as nat,
                ..st
            };
            assert(spec_run_from(code, consts, st) == spec_run_from(code, consts, st2));
        },
        Err(e) => {
            assert(spec_run_from(code, consts, st) == VmOutcome::Failed(e));
        },
    }
}

/// Straight-line expression code either fails at runtime or leaves
/// exactly one more value on the stack.  The compiled segment sits at
/// the start of `st` inside the final buffer `code`, whose constant pool
/// and globals frame cover everything the segment addresses.
#[verifier::rlimit(100)]
#[verifier::spinoff_prover]
proof fn lemma_flat_expr_runs(
    e: Expressions,
    s: CompState,
    code: Seq<u8>,
    consts: Seq<ObjectType>,
    st: VmState,
)
    requires
        flat_expr(e),
        syms_bounded(s),
        spec_compile_expr(e, s) matches Ok(s1) && {
            &&& s1.code.len() <= code.len()
            &&& (forall|k: int| 0 <= k < s1.code.len() ==> code[k] == s1.code[k])
            &&& s1.consts.len() <= consts.len()
            &&& s1.nsyms <= st.globals.len()
        },
        st.ip == s.code.len(),
        st.sp <= st.stack.len(),
    ensures
        spec_compile_expr(e, s) matches Ok(s1) ==> runs_to_depth(
            code,
            consts,
            st,
            s1.code.len(),
            1,
        ),
    decreases e,
{
    let base = s.code.len() as int;
    match e {
        Expressions::IntegerLiteral { value, .. } => {
            let sa = add_const_state(s, ObjectType::Integer(value as i64));
            let s1 = emit_state(sa, OpCode::OpConstant, seq![s.consts.len() as usize]);
            let idx = s.consts.len() as usize;
            lemma_opcode_byte_round_trip(OpCode::OpConstant);
            assert(code[base] == 0);
            assert(code[base + 1] == crate::bytecode::be_hi(idx as int));
            assert(code[base + 2] == crate::bytecode::be_lo(idx as int));
            lemma_read_emitted_operand(code, base, idx);
            let x = spec_read_u16(code, base + 1) as nat;
            assert(x <= idx < s1.consts.len() <= consts.len());
            if st.sp >= st.stack.len() {
                assert(spec_run_from(code, consts, st) == VmOutcome::Failed(
                    crate::vm::RuntimeError::StackOverflow,
                ));
            } else {
                let st2 = VmState {
                    ip: st.ip + 3,
                    stack: st.stack.update(st.sp as int, consts[x as int]),
                    sp: st.sp + 1,
                    ..st
                };
                assert(spec_run_from(code, consts, st) == spec_run_from(code, consts, st2));
            }
        },
        Expressions::Boolean { value, .. } => {
            let op = if value {
                OpCode::OpTrue
            } else {
                OpCode::OpFalse
            };
            let s1 = emit_state(s, op, Seq::<usize>::empty());
            lemma_opcode_byte_round_trip(op);
            assert(code[base] == crate::bytecode::opcode_value(op));
            if st.sp >= st.stack.len() {
                assert(spec_run_from(code, consts, st) == VmOutcome::Failed(
                    crate::vm::RuntimeError::StackOverflow,
                ));
            } else {
                let v = ObjectType::Boolean(value);
                let st2 = VmState {
                    ip: st.ip + 1,
                    stack: st.stack.update(st.sp as int, v),
                    sp: st.sp + 1,
                    ..st
                };
                assert(spec_run_from(code, consts, st) == spec_run_from(code, consts, st2));
            }
        },
        Expressions::Identifier { value, .. } => {
            let slot = s.syms[value@] as usize;
            let s1 = emit_state(s, OpCode::OpGetGlobal, seq![slot]);
            lemma_opcode_byte_round_trip(OpCode::OpGetGlobal);
            assert(code[base] == 17);
            assert(code[base + 1] == crate::bytecode::be_hi(slot as int));
            assert(code[base + 2] == crate::bytecode::be_lo(slot as int));
            lemma_read_emitted_operand(code, base, slot);
            let x = spec_read_u16(code, base + 1) as nat;
            assert(x <= slot < s.nsyms <= st.globals.len());
            if st.globals[x as int] is NoOp {
                assert(spec_run_from(code, consts, st) == VmOutcome::Failed(
                    crate::vm::RuntimeError::UninitializedGlobal,
                ));
            } else if st.sp >= st.stack.len() {
                assert(spec_run_from(code, consts, st) == VmOutcome::Failed(
                    crate::vm::RuntimeError::StackOverflow,
                ));
            } else {
                let st2 = VmState {
                    ip: st.ip + 3,
                    stack: st.stack.update(st.sp as int, st.globals[x as int]),
                    sp: st.sp + 1,
                    ..st
                };
                assert(spec_run_from(code, consts, st) == spec_run_from(code, consts, st2));
            }
        },
        Expressions::Prefix { operator, right, .. } => {
            match spec_compile_expr(*right, s) {
                Ok(sr) => {
                    lemma_compile_expr_wf(*right, s);
                    let op = if operator@ == "!"@ {
                        OpCode::OpBang
                    } else {
                        OpCode::OpMinus
                    };
                    let s1 = emit_state(sr, op, Seq::<usize>::empty());
                    lemma_flat_expr_runs(*right, s, code, consts, st);
                    if spec_run_from(code, consts, st) is Failed {
                    } else {
                        let st2 = choose|st2: VmState|
                            {
                                &&& #[trigger] spec_run_from(code, consts, st2)
                                    == spec_run_from(code, consts, st)
                                &&& st2.ip == sr.code.len()
                                &&& st2.sp == st.sp + 1
                                &&& st2.sp <= st2.stack.len()
                                &&& st2.stack.len() == st.stack.len()
                                &&& st2.globals.len() == st.globals.len()
                            };
                        let p = sr.code.len() as int;
                        lemma_opcode_byte_round_trip(op);
                        assert(code[p] == crate::bytecode::opcode_value(op));
                        if op == OpCode::OpBang {
                            let v = crate::vm::spec_bang(st2.stack[st2.sp - 1]);
                            let st3 = VmState {
                                ip: st2.ip + 1,
                                stack: st2.stack.update(st2.sp - 1, v),
                                ..st2
                            };
                            assert(spec_run_from(code, consts, st2) == spec_run_from(
                                code,
                                consts,
                                st3,
                            ));
                        } else {
                            match st2.stack[st2.sp - 1] {
                                ObjectType::Integer(n) => {
                                    match (0i64).checked_sub(n) {
                                        Some(m) => {
                                            let st3 = VmState {
                                                ip: st2.ip + 1,
                                                stack: st2.stack.update(
                                                    st2.sp - 1,
                                                    ObjectType::Integer(m),
                                                ),
                                                ..st2
                                            };
                                            assert(spec_run_from(code, consts, st2)
                                                == spec_run_from(code, consts, st3));
                                        },
                                        None => {
                                            assert(spec_run_from(code, consts, st2)
                                                == VmOutcome::Failed(
                                                crate::vm::RuntimeError::IntegerOverflow,
                                            ));
                                        },
                                    }
                                },
                                _ => {
                                    assert(spec_run_from(code, consts, st2)
                                        == VmOutcome::Failed(
                                        crate::vm::RuntimeError::TypeMismatch,
                                    ));
                                },
                            }
                        }
                    }
                },
                Err(_) => (),
            }
        },
        Expressions::Infix { left, operator, right, .. } => {
            if operator@ == "<"@ {
                match spec_compile_expr(*right, s) {
                    Ok(sr) => {
                        lemma_compile_expr_wf(*right, s);
                        match spec_compile_expr(*left, sr) {
                            Ok(sl) => {
                                lemma_compile_expr_wf(*left, sr);
                                let s1 = emit_state(
                                    sl,
                                    OpCode::OpGreaterThan,
                                    Seq::<usize>::empty(),
                                );
                                lemma_flat_expr_runs(*right, s, code, consts, st);
                                if spec_run_from(code, consts, st) is Failed {
                                } else {
                                    let st2 = choose|st2: VmState|
                                        {
                                            &&& #[trigger] spec_run_from(code, consts, st2)
                                                == spec_run_from(code, consts, st)
                                            &&& st2.ip == sr.code.len()
                                            &&& st2.sp == st.sp + 1
                                            &&& st2.sp <= st2.stack.len()
                                            &&& st2.stack.len() == st.stack.len()
                                            &&& st2.globals.len() == st.globals.len()
                                        };
                                    lemma_flat_expr_runs(*left, sr, code, consts, st2);
                                    if spec_run_from(code, consts, st2) is Failed {
                                    } else {
                                        let st3 = choose|st3: VmState|
                                            {
                                                &&& #[trigger] spec_run_from(
                                                    code,
                                                    consts,
                                                    st3,
                                                ) == spec_run_from(code, consts, st2)
                                                &&& st3.ip == sl.code.len()
                                                &&& st3.sp == st2.sp + 1
                                                &&& st3.sp <= st3.stack.len()
                                                &&& st3.stack.len() == st2.stack.len()
                                                &&& st3.globals.len() == st2.globals.len()
                                            };
                                        assert(code[sl.code.len() as int] == 10);
                                        lemma_binary_step(
                                            code,
                                            consts,
                                            st3,
                                            OpCode::OpGreaterThan,
                                        );
                                    }
                                }
                            },
                            Err(_) => (),
                        }
                    },
                    Err(_) => (),
                }
            } else {
                match spec_compile_expr(*left, s) {
                    Ok(sa) => {
                        lemma_compile_expr_wf(*left, s);
                        match spec_compile_expr(*right, sa) {
                            Ok(sb) => {
                                lemma_compile_expr_wf(*right, sa);
                                let op = if operator@ == "+"@ {
                                    OpCode::OpAdd
                                } else if operator@ == "-"@ {
                                    OpCode::OpSub
                                } else if operator@ == "*"@ {
                                    OpCode::OpMul
                                } else if operator@ == "/"@ {
                                    OpCode::OpDiv
                                } else if operator@ == "=="@ {
                                    OpCode::OpEqual
                                } else if operator@ == "!="@ {
                                    OpCode::OpNotEqual
                                } else {
                                    OpCode::OpGreaterThan
                                };
                                let s1 = emit_state(sb, op, Seq::<usize>::empty());
                                assert(spec_compile_expr(e, s) == Ok::<
                                    CompState,
                                    CompileIssue,
                                >(s1));
                                lemma_flat_expr_runs(*left, s, code, consts, st);
                                if spec_run_from(code, consts, st) is Failed {
                                } else {
                                    let st2 = choose|st2: VmState|
                                        {
                                            &&& #[trigger] spec_run_from(code, consts, st2)
                                                == spec_run_from(code, consts, st)
                                            &&& st2.ip == sa.code.len()
                                            &&& st2.sp == st.sp + 1
                                            &&& st2.sp <= st2.stack.len()
                                            &&& st2.stack.len() == st.stack.len()
                                            &&& st2.globals.len() == st.globals.len()
                                        };
                                    lemma_flat_expr_runs(*right, sa, code, consts, st2);
                                    if spec_run_from(code, consts, st2) is Failed {
                                    } else {
                                        let st3 = choose|st3: VmState|
                                            {
                                                &&& #[trigger] spec_run_from(
                                                    code,
                                                    consts,
                                                    st3,
                                                ) == spec_run_from(code, consts, st2)
                                                &&& st3.ip == sb.code.len()
                                                &&& st3.sp == st2.sp + 1
                                                &&& st3.sp <= st3.stack.len()
                                                &&& st3.stack.len() == st2.stack.len()
                                                &&& st3.globals.len() == st2.globals.len()
                                            };
                                        assert(code[sb.code.len() as int]
                                            == crate::bytecode::opcode_value(op));
                                        lemma_binary_step(code, consts, st3, op);
                                    }
                                }
                            },
                            Err(_) => (),
                        }
                    },
                    Err(_) => (),
                }
            }
        },
        _ => (),
    }
}

/// One straight-line node's code either fails at runtime or leaves the
/// stack depth unchanged: an expression-statement pushes one value and
/// pops it, a `let` pushes one value and stores it.
#[verifier::rlimit(100)]
#[verifier::spinoff_prover]
proof fn lemma_flat_node_runs(
    n: Nodes,
    s: CompState,
    code: Seq<u8>,
    consts: Seq<ObjectType>,
    st: VmState,
)
    requires
        flat_node(n),
        syms_bounded(s),
        spec_compile_node(n, s) matches Ok(s1) && {
            &&& s1.code.len() <= code.len()
            &&& (forall|k: int| 0 <= k < s1.code.len() ==> code[k] == s1.code[k])
            &&& s1.consts.len() <= consts.len()
            &&& s1.nsyms <= st.globals.len()
        },
        st.ip == s.code.len(),
        st.sp <= st.stack.len(),
    ensures
        spec_compile_node(n, s) matches Ok(s1) ==> runs_to_depth(
            code,
            consts,
            st,
            s1.code.len(),
            0,
        ),
{
    match n {
        Nodes::Expression(e) => {
            match spec_compile_expr(e, s) {
                Ok(se) => {
                    lemma_compile_expr_wf(e, s);
                    let s1 = emit_state(se, OpCode::OpPop, Seq::<usize>::empty());
                    lemma_flat_expr_runs(e, s, code, consts, st);
                    if spec_run_from(code, consts, st) is Failed {
                    } else {
                        let st2 = choose|st2: VmState|
                            {
                                &&& #[trigger] spec_run_from(code, consts, st2)
                                    == spec_run_from(code, consts, st)
                                &&& st2.ip == se.code.len()
                                &&& st2.sp == st.sp + 1
                                &&& st2.sp <= st2.stack.len()
                                &&& st2.stack.len() == st.stack.len()
                                &&& st2.globals.len() == st.globals.len()
                            };
                        lemma_opcode_byte_round_trip(OpCode::OpPop);
                        assert(code[se.code.len() as int] == 2);
                        let st3 = VmState { ip: st2.ip + 1, sp: (st2.sp - 1) as nat, ..st2 };
                        assert(spec_run_from(code, consts, st2) == spec_run_from(
                            code,
                            consts,
                            st3,
                        ));
                    }
                },
                Err(_) => (),
            }
        },
        Nodes::Statement(stm) => match stm {
            Statements::Let { name, value, .. } => match name {
                Expressions::Identifier { value: bind, .. } => {
                    match spec_compile_expr(value, s) {
                        Ok(sv) => {
                            if sv.nsyms < usize::MAX as nat {
                                lemma_compile_expr_wf(value, s);
                                let slot = sv.nsyms as usize;
                                let s1 = emit_state(
                                    define_state(sv, bind@),
                                    OpCode::OpSetGlobal,
                                    seq![slot],
                                );
                                lemma_flat_expr_runs(value, s, code, consts, st);
                                if spec_run_from(code, consts, st) is Failed {
                                } else {
                                    let st2 = choose|st2: VmState|
                                        {
                                            &&& #[trigger] spec_run_from(code, consts, st2)
                                                == spec_run_from(code, consts, st)
                                            &&& st2.ip == sv.code.len()
                                            &&& st2.sp == st.sp + 1
                                            &&& st2.sp <= st2.stack.len()
                                            &&& st2.stack.len() == st.stack.len()
                                            &&& st2.globals.len() == st.globals.len()
                                        };
                                    let p = sv.code.len() as int;
                                    lemma_opcode_byte_round_trip(OpCode::OpSetGlobal);
                                    assert(code[p] == 16);
                                    assert(code[p + 1] == crate::bytecode::be_hi(slot as int));
                                    assert(code[p + 2] == crate::bytecode::be_lo(slot as int));
                                    lemma_read_emitted_operand(code, p, slot);
                                    let x = spec_read_u16(code, p + 1) as nat;
                                    assert(x <= slot < s1.nsyms <= st2.globals.len());
                                    let st3 = VmState {
                                        ip: st2.ip + 3,
                                        sp: (st2.sp - 1) as nat,
                                        globals: st2.globals.update(
                                            x as int,
                                            st2.stack[st2.sp - 1],
                                        ),
                                        ..st2
                                    };
                                    assert(spec_run_from(code, consts, st2) == spec_run_from(
                                        code,
                                        consts,
                                        st3,
                                    ));
                                }
                            }
                        },
                        Err(_) => (),
                    }
                },
                _ => (),
            },
            _ => (),
        },
    }
}

/// A straight-line program's code either fails at runtime or brings the
/// stack depth back to where it started, node by node.
proof fn lemma_flat_nodes_runs(
    v: Seq<Nodes>,
    s: CompState,
    code: Seq<u8>,
    consts: Seq<ObjectType>,
    st: VmState,
)
    requires
        flat_nodes(v),
        syms_bounded(s),
        spec_compile_nodes(v, s) matches Ok(s1) && {
            &&& s1.code.len() <= code.len()
            &&& (forall|k: int| 0 <= k < s1.code.len() ==> code[k] == s1.code[k])
            &&& s1.consts.len() <= consts.len()
            &&& s1.nsyms <= st.globals.len()
        },
        st.ip == s.code.len(),
        st.sp <= st.stack.len(),
    ensures
        spec_compile_nodes(v, s) matches Ok(s1) ==> runs_to_depth(
            code,
            consts,
            st,
            s1.code.len(),
            0,
        ),
    decreases v,
{
    if v.len() == 0 {
        assert(spec_run_from(code, consts, st) == spec_run_from(code, consts, st));
    } else {
        match spec_compile_node(v[0], s) {
            Ok(sa) => {
                lemma_compile_node_wf(v[0], s);
                match spec_compile_nodes(v.drop_first(), sa) {
                    Ok(s1) => {
                        lemma_compile_nodes_wf(v.drop_first(), sa);
                        assert(flat_node(v[0]));
                        assert(flat_nodes(v.drop_first())) by {
                            assert forall|i: int|
                                0 <= i < v.drop_first().len() implies flat_node(
                                #[trigger] v.drop_first()[i],
                            ) by {
                                assert(v.drop_first()[i] == v[i + 1]);
                            }
                        };
                        lemma_flat_node_runs(v[0], s, code, consts, st);
                        if spec_run_from(code, consts, st) is Failed {
                        } else {
                            let st2 = choose|st2: VmState|
                                {
                                    &&& #[trigger] spec_run_from(code, consts, st2)
                                        == spec_run_from(code, consts, st)
                                    &&& st2.ip == sa.code.len()
                                    &&& st2.sp == st.sp + 0
                                    &&& st2.sp <= st2.stack.len()
                                    &&& st2.stack.len() == st.stack.len()
                                    &&& st2.globals.len() == st.globals.len()
                                };
                            lemma_flat_nodes_runs(v.drop_first(), sa, code, consts, st2);
                        }
                    },
                    Err(_) => (),
                }
            },
            Err(_) => (),
        }
    }
}

/// Stack balance for straight-line programs: a program without `if`
/// expressions (and so with no jumps in its code) that compiles
/// successfully, into a globals frame with room for every definition,
/// either fails at runtime or ends with the operand stack back at depth
/// 0 — each expression-statement's value is pushed and popped, each
/// `let`'s value is pushed and stored.
pub proof fn lemma_flat_program_stack_balance(
    v: Seq<Nodes>,
    stack: Seq<ObjectType>,
    globals: Seq<ObjectType>,
)
    requires
        flat_nodes(v),
        spec_compile_nodes(v, empty_comp_state()) matches Ok(s1) && s1.nsyms <= globals.len(),
    ensures
        spec_compile_nodes(v, empty_comp_state()) matches Ok(s1) ==> {
            let r = spec_run_from(
                s1.code,
                s1.consts,
                VmState { ip: 0, stack, sp: 0, globals },
            );
            r is Failed || (r matches VmOutcome::Done(stf) && stf.sp == 0)
        },
{
    match spec_compile_nodes(v, empty_comp_state()) {
        Ok(s1) => {
            let st = VmState { ip: 0, stack, sp: 0, globals };
            lemma_flat_nodes_runs(v, empty_comp_state(), s1.code, s1.consts, st);
            if spec_run_from(s1.code, s1.consts, st) is Failed {
            } else {
                let st2 = choose|st2: VmState|
                    {
                        &&& #[trigger] spec_run_from(s1.code, s1.consts, st2)
                            == spec_run_from(s1.code, s1.consts, st)
                        &&& st2.ip == s1.code.len()
                        &&& st2.sp == st.sp + 0
                        &&& st2.sp <= st2.stack.len()
                        &&& st2.stack.len() == st.stack.len()
                        &&& st2.globals.len() == st.globals.len()
                    };
                assert(spec_run_from(s1.code, s1.consts, st2) == VmOutcome::Done(st2));
            }
        },
        Err(_) => (),
    }
}

} // verus!
