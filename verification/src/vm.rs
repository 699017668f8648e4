//! The stack virtual machine: a fetch-decode-execute loop over a flat
//! instruction buffer, an operand stack of fixed capacity, and a
//! fixed-capacity globals frame.
//!
//! Execution is specified by the step interpreter `spec_run_from`; `run`
//! is proved to realize it exactly on well-formed code.

use vstd::prelude::*;
use crate::bytecode::{
    instr_size, opcode_from_byte, opcode_of_byte, operand_width, spec_read_u16, Instruction,
    OpCode,
};
use crate::compiler::Bytecode;
use crate::object::ObjectType;

verus! {

/// Capacity of the operand stack.
pub const STACK_SIZE: usize = 2048;

/// Capacity of the globals frame.
pub const GLOBAL_SIZE: usize = 6625;

/// The ways a run can fail at runtime.
#[derive(Clone, Copy, Debug, PartialEq, Eq, Structural)]
pub enum RuntimeError {
    StackOverflow,
    StackUnderflow,
    TypeMismatch,
    DivisionByZero,
    IntegerOverflow,
    UninitializedGlobal,
}

/// The message a runtime error surfaces as.
pub open spec fn spec_rt_err_text(e: RuntimeError) -> Seq<char> {
    match e {
        RuntimeError::StackOverflow => "stack overflow"@,
        RuntimeError::StackUnderflow => "stack underflow"@,
        RuntimeError::TypeMismatch => "type mismatch"@,
        RuntimeError::DivisionByZero => "division by zero"@,
        RuntimeError::IntegerOverflow => "integer overflow"@,
        RuntimeError::UninitializedGlobal => "uninitialized global"@,
    }
}

fn rt_err_text(e: RuntimeError) -> (r: String)
    ensures
        r@ == spec_rt_err_text(e),
{
    match e {
        RuntimeError::StackOverflow => String::from_str("stack overflow"),
        RuntimeError::StackUnderflow => String::from_str("stack underflow"),
        RuntimeError::TypeMismatch => String::from_str("type mismatch"),
        RuntimeError::DivisionByZero => String::from_str("division by zero"),
        RuntimeError::IntegerOverflow => String::from_str("integer overflow"),
        RuntimeError::UninitializedGlobal => String::from_str("uninitialized global"),
    }
}

/// The machine state the step interpreter walks: instruction pointer,
/// the full operand stack array, the next-free stack index, and the
/// globals frame.
pub ghost struct VmState {
    pub ip: nat,
    pub stack: Seq<ObjectType>,
    pub sp: nat,
    pub globals: Seq<ObjectType>,
}

/// How a run ends: normally, with a runtime error, or stuck on code the
/// well-formedness predicate rules out.
pub ghost enum VmOutcome {
    Done(VmState),
    Failed(RuntimeError),
    Stuck,
}

/// Truthiness for `OpJumpNotTruthy`: `Boolean(false)` and `Null` are
/// falsy, everything else is truthy.
pub open spec fn spec_is_truthy(obj: ObjectType) -> bool {
    match obj {
        ObjectType::Boolean(value) => value,
        ObjectType::Null => false,
        _ => true,
    }
}

/// The result of a binary opcode on two integers.  Arithmetic that
/// leaves the 64-bit range is a runtime error, as is division by zero.
pub open spec fn spec_integer_operation(op: OpCode, left: i64, right: i64) -> Result<
    ObjectType,
    RuntimeError,
> {
    match op {
        OpCode::OpAdd => match left.checked_add(right) {
            Some(v) => Ok(ObjectType::Integer(v)),
            None => Err(RuntimeError::IntegerOverflow),
        },
        OpCode::OpSub => match left.checked_sub(right) {
            Some(v) => Ok(ObjectType::Integer(v)),
            None => Err(RuntimeError::IntegerOverflow),
        },
        OpCode::OpMul => match left.checked_mul(right) {
            Some(v) => Ok(ObjectType::Integer(v)),
            None => Err(RuntimeError::IntegerOverflow),
        },
        OpCode::OpDiv => if right == 0 {
            Err(RuntimeError::DivisionByZero)
        } else {
            match left.checked_div(right) {
                Some(v) => Ok(ObjectType::Integer(v)),
                None => Err(RuntimeError::IntegerOverflow),
            }
        },
        OpCode::OpEqual => Ok(ObjectType::Boolean(left == right)),
        OpCode::OpNotEqual => Ok(ObjectType::Boolean(left != right)),
        OpCode::OpGreaterThan => Ok(ObjectType::Boolean(left > right)),
        _ => Err(RuntimeError::TypeMismatch),
    }
}

/// The result of a binary opcode on two booleans: only equality and
/// inequality are defined.
pub open spec fn spec_boolean_operation(op: OpCode, left: bool, right: bool) -> Result<
    ObjectType,
    RuntimeError,
> {
    match op {
        OpCode::OpEqual => Ok(ObjectType::Boolean(left == right)),
        OpCode::OpNotEqual => Ok(ObjectType::Boolean(left != right)),
        _ => Err(RuntimeError::TypeMismatch),
    }
}

/// The result of a binary opcode on the two topmost stack values.
pub open spec fn spec_binary_operation(op: OpCode, left: ObjectType, right: ObjectType) -> Result<
    ObjectType,
    RuntimeError,
> {
    match (left, right) {
        (ObjectType::Integer(a), ObjectType::Integer(b)) => spec_integer_operation(op, a, b),
        (ObjectType::Boolean(a), ObjectType::Boolean(b)) => spec_boolean_operation(op, a, b),
        _ => Err(RuntimeError::TypeMismatch),
    }
}

/// The result of `OpBang` on a value: true exactly for `Boolean(false)`
/// and `Null`.
pub open spec fn spec_bang(obj: ObjectType) -> ObjectType {
    match obj {
        ObjectType::Boolean(value) => ObjectType::Boolean(!value),
        ObjectType::Null => ObjectType::Boolean(true),
        _ => ObjectType::Boolean(false),
    }
}

/// Code well-formedness from position `i`: every position execution can
/// reach decodes to a known opcode with its operand bytes in range —
/// constant indices within the pool, global slots within the frame, and
/// jump targets strictly forward and within the buffer.  The compiler
/// only emits such code; on it the machine provably terminates.
pub open spec fn wf_code_from(code: Seq<u8>, i: nat, nconsts: nat, nglobals: nat) -> bool
    decreases code.len() - i,
{
    if i >= code.len() {
        i == code.len()
    } else {
        match opcode_of_byte(code[i as int]) {
            None => false,
            Some(op) => {
                &&& i + instr_size(op) <= code.len()
                &&& (op == OpCode::OpConstant ==> spec_read_u16(code, i + 1 as int) < nconsts)
                &&& (op == OpCode::OpSetGlobal || op == OpCode::OpGetGlobal ==> spec_read_u16(
                    code,
                    i + 1 as int,
                ) < nglobals)
                &&& (op == OpCode::OpJump || op == OpCode::OpJumpNotTruthy ==> {
                    let t = spec_read_u16(code, i + 1 as int) as nat;
                    t > i && t <= code.len() && wf_code_from(code, t, nconsts, nglobals)
                })
                &&& wf_code_from(code, i + instr_size(op), nconsts, nglobals)
            },
        }
    }
}

/// The step interpreter: executes the instruction at `st.ip` and
/// recurses until the instruction pointer leaves the buffer.  On code
/// ruled out by `wf_code_from` it may end `Stuck`; the machine never
/// reaches that outcome.
pub open spec fn spec_run_from(code: Seq<u8>, consts: Seq<ObjectType>, st: VmState) -> VmOutcome
    decreases code.len() - st.ip,
{
    if st.ip >= code.len() {
        VmOutcome::Done(st)
    } else {
        match opcode_of_byte(code[st.ip as int]) {
            None => VmOutcome::Stuck,
            Some(op) => if st.ip + instr_size(op) > code.len() {
                VmOutcome::Stuck
            } else {
                match op {
                    OpCode::OpConstant => {
                        let x = spec_read_u16(code, st.ip + 1 as int) as nat;
                        if x >= consts.len() {
                            VmOutcome::Stuck
                        } else if st.sp >= st.stack.len() {
                            VmOutcome::Failed(RuntimeError::StackOverflow)
                        } else {
                            spec_run_from(
                                code,
                                consts,
                                VmState {
                                    ip: st.ip + 3,
                                    stack: st.stack.update(st.sp as int, consts[x as int]),
                                    sp: st.sp + 1,
                                    ..st
                                },
                            )
                        }
                    },
                    OpCode::OpAdd | OpCode::OpSub | OpCode::OpMul | OpCode::OpDiv
                    | OpCode::OpEqual | OpCode::OpNotEqual | OpCode::OpGreaterThan => {
                        if st.sp < 2 {
                            VmOutcome::Failed(RuntimeError::StackUnderflow)
                        } else {
                            let right = st.stack[st.sp - 1];
                            let left = st.stack[st.sp - 2];
                            match spec_binary_operation(op, left, right) {
                                Ok(v) => spec_run_from(
                                    code,
                                    consts,
                                    VmState {
                                        ip: st.ip + 1,
                                        stack: st.stack.update(st.sp - 2, v),
                                        sp: (st.sp - 1) as nat,
                                        ..st
                                    },
                                ),
                                Err(e) => VmOutcome::Failed(e),
                            }
                        }
                    },
                    OpCode::OpPop => {
                        if st.sp < 1 {
                            VmOutcome::Failed(RuntimeError::StackUnderflow)
                        } else {
                            spec_run_from(
                                code,
                                consts,
                                VmState { ip: st.ip + 1, sp: (st.sp - 1) as nat, ..st },
                            )
                        }
                    },
                    OpCode::OpTrue | OpCode::OpFalse | OpCode::OpNull => {
                        let v = if op == OpCode::OpTrue {
                            ObjectType::Boolean(true)
                        } else if op == OpCode::OpFalse {
                            ObjectType::Boolean(false)
                        } else {
                            ObjectType::Null
                        };
                        if st.sp >= st.stack.len() {
                            VmOutcome::Failed(RuntimeError::StackOverflow)
                        } else {
                            spec_run_from(
                                code,
                                consts,
                                VmState {
                                    ip: st.ip + 1,
                                    stack: st.stack.update(st.sp as int, v),
                                    sp: st.sp + 1,
                                    ..st
                                },
                            )
                        }
                    },
                    OpCode::OpBang => {
                        if st.sp < 1 {
                            VmOutcome::Failed(RuntimeError::StackUnderflow)
                        } else {
                            let v = spec_bang(st.stack[st.sp - 1]);
                            spec_run_from(
                                code,
                                consts,
                                VmState {
                                    ip: st.ip + 1,
                                    stack: st.stack.update(st.sp - 1, v),
                                    ..st
                                },
                            )
                        }
                    },
                    OpCode::OpMinus => {
                        if st.sp < 1 {
                            VmOutcome::Failed(RuntimeError::StackUnderflow)
                        } else {
                            match st.stack[st.sp - 1] {
                                ObjectType::Integer(v) => match (0i64).checked_sub(v) {
                                    Some(n) => spec_run_from(
                                        code,
                                        consts,
                                        VmState {
                                            ip: st.ip + 1,
                                            stack: st.stack.update(
                                                st.sp - 1,
                                                ObjectType::Integer(n),
                                            ),
                                            ..st
                                        },
                                    ),
                                    None => VmOutcome::Failed(RuntimeError::IntegerOverflow),
                                },
                                _ => VmOutcome::Failed(RuntimeError::TypeMismatch),
                            }
                        }
                    },
                    OpCode::OpJump => {
                        let t = spec_read_u16(code, st.ip + 1 as int) as nat;
                        if t > st.ip && t <= code.len() {
                            spec_run_from(code, consts, VmState { ip: t, ..st })
                        } else {
                            VmOutcome::Stuck
                        }
                    },
                    OpCode::OpJumpNotTruthy => {
                        let t = spec_read_u16(code, st.ip + 1 as int) as nat;
                        if st.sp < 1 {
                            VmOutcome::Failed(RuntimeError::StackUnderflow)
                        } else {
                            let condition = st.stack[st.sp - 1];
                            let popped = VmState { sp: (st.sp - 1) as nat, ..st };
                            if spec_is_truthy(condition) {
                                spec_run_from(
                                    code,
                                    consts,
                                    VmState { ip: st.ip + 3, ..popped },
                                )
                            } else if t > st.ip && t <= code.len() {
                                spec_run_from(code, consts, VmState { ip: t, ..popped })
                            } else {
                                VmOutcome::Stuck
                            }
                        }
                    },
                    OpCode::OpSetGlobal => {
                        let x = spec_read_u16(code, st.ip + 1 as int) as nat;
                        if x >= st.globals.len() {
                            VmOutcome::Stuck
                        } else if st.sp < 1 {
                            VmOutcome::Failed(RuntimeError::StackUnderflow)
                        } else {
                            spec_run_from(
                                code,
                                consts,
                                VmState {
                                    ip: st.ip + 3,
                                    sp: (st.sp - 1) as nat,
                                    globals: st.globals.update(
                                        x as int,
                                        st.stack[st.sp - 1],
                                    ),
                                    ..st
                                },
                            )
                        }
                    },
                    OpCode::OpGetGlobal => {
                        let x = spec_read_u16(code, st.ip + 1 as int) as nat;
                        if x >= st.globals.len() {
                            VmOutcome::Stuck
                        } else if st.globals[x as int] is NoOp {
                            VmOutcome::Failed(RuntimeError::UninitializedGlobal)
                        } else if st.sp >= st.stack.len() {
                            VmOutcome::Failed(RuntimeError::StackOverflow)
                        } else {
                            spec_run_from(
                                code,
                                consts,
                                VmState {
                                    ip: st.ip + 3,
                                    stack: st.stack.update(st.sp as int, st.globals[x as int]),
                                    sp: st.sp + 1,
                                    ..st
                                },
                            )
                        }
                    },
                }
            },
        }
    }
}

/// A stack machine instance: the bytecode under execution, the operand
/// stack, and the globals frame.
pub struct VirtualMachine {
    pub constants: Vec<ObjectType>,
    pub instructions: Instruction,
    pub stack: Vec<ObjectType>,
    pub global: Vec<ObjectType>,
    pub sp: usize,
}

impl VirtualMachine {
    /// The stack and globals have their fixed capacities and the stack
    /// pointer stays within the stack.
    pub open spec fn wf(self) -> bool {
        &&& self.stack@.len() == STACK_SIZE
        &&& self.global@.len() == GLOBAL_SIZE
        &&& self.sp <= STACK_SIZE
    }

    /// The machine state this instance currently holds, at position `ip`.
    pub open spec fn state_at(self, ip: nat) -> VmState {
        VmState { ip, stack: self.stack@, sp: self.sp as nat, globals: self.global@ }
    }

    /// Builds a machine over compiled bytecode and an externally owned
    /// globals frame (taken over for the run and readable afterwards).
    pub fn new(bytecode_object: Bytecode, global: Vec<ObjectType>) -> (vm: VirtualMachine)
        requires
            global@.len() == GLOBAL_SIZE,
        ensures
            vm.wf(),
            vm.sp == 0,
            vm.instructions@ == bytecode_object.instruction@,
            vm.constants@ == bytecode_object.constant@,
            vm.global@ == global@,
            forall|i: int| 0 <= i < STACK_SIZE ==> vm.stack@[i] == ObjectType::NoOp,
    {
        VirtualMachine {
            instructions: bytecode_object.instruction,
            constants: bytecode_object.constant,
            sp: 0,
            stack: vec![ObjectType::NoOp; STACK_SIZE],
            global,
        }
    }

    /// Truthiness of a value, as `OpJumpNotTruthy` tests it.
    fn is_truthy(&self, obj: ObjectType) -> (r: bool)
        ensures
            r == spec_is_truthy(obj),
    {
        match obj {
            ObjectType::Boolean(value) => value,
            ObjectType::Null => false,
            _ => true,
        }
    }

    /// A binary opcode on two integer operands.
    fn execute_integer_operation(&self, op: OpCode, left: i64, right: i64) -> (r: Result<
        ObjectType,
        RuntimeError,
    >)
        ensures
            r == spec_integer_operation(op, left, right),
    {
        match op {
            OpCode::OpAdd => match left.checked_add(right) {
                Some(v) => Ok(ObjectType::Integer(v)),
                None => Err(RuntimeError::IntegerOverflow),
            },
            OpCode::OpSub => match left.checked_sub(right) {
                Some(v) => Ok(ObjectType::Integer(v)),
                None => Err(RuntimeError::IntegerOverflow),
            },
            OpCode::OpMul => match left.checked_mul(right) {
                Some(v) => Ok(ObjectType::Integer(v)),
                None => Err(RuntimeError::IntegerOverflow),
            },
            OpCode::OpDiv => {
                if right == 0 {
                    Err(RuntimeError::DivisionByZero)
                } else {
                    match left.checked_div(right) {
                        Some(v) => Ok(ObjectType::Integer(v)),
                        None => Err(RuntimeError::IntegerOverflow),
                    }
                }
            },
            OpCode::OpEqual => Ok(ObjectType::Boolean(left == right)),
            OpCode::OpNotEqual => Ok(ObjectType::Boolean(left != right)),
            OpCode::OpGreaterThan => Ok(ObjectType::Boolean(left > right)),
            _ => Err(RuntimeError::TypeMismatch),
        }
    }

    /// A binary opcode on two boolean operands.
    fn execute_boolean_operation(&self, op: OpCode, left: bool, right: bool) -> (r: Result<
        ObjectType,
        RuntimeError,
    >)
        ensures
            r == spec_boolean_operation(op, left, right),
    {
        match op {
            OpCode::OpEqual => Ok(ObjectType::Boolean(left == right)),
            OpCode::OpNotEqual => Ok(ObjectType::Boolean(left != right)),
            _ => Err(RuntimeError::TypeMismatch),
        }
    }

    /// A binary opcode on two popped operands.
    fn execute_binary_operation(&self, op: OpCode, left: ObjectType, right: ObjectType) -> (r:
        Result<ObjectType, RuntimeError>)
        ensures
            r == spec_binary_operation(op, left, right),
    {
        match (left, right) {
            (ObjectType::Integer(a), ObjectType::Integer(b)) => self.execute_integer_operation(
                op,
                a,
                b,
            ),
            (ObjectType::Boolean(a), ObjectType::Boolean(b)) => self.execute_boolean_operation(
                op,
                a,
                b,
            ),
            _ => Err(RuntimeError::TypeMismatch),
        }
    }

    /// Writes a value at the next-free stack slot; fails when the stack
    /// is full.
    fn push(&mut self, object: ObjectType) -> (r: Result<(), RuntimeError>)
        requires
            old(self).wf(),
        ensures
            final(self).wf(),
            final(self).instructions == old(self).instructions,
            final(self).constants == old(self).constants,
            final(self).global == old(self).global,
            match r {
                Ok(_) => old(self).sp < STACK_SIZE
                    && final(self).stack@ == old(self).stack@.update(old(self).sp as int, object)
                    && final(self).sp == old(self).sp + 1,
                Err(e) => e == RuntimeError::StackOverflow && old(self).sp == STACK_SIZE
                    && *final(self) == *old(self),
            },
    {
        if self.sp >= STACK_SIZE {
            return Err(RuntimeError::StackOverflow);
        }
        self.stack.set(self.sp, object);
        self.sp = self.sp + 1;
        Ok(())
    }

    /// Reads the value below the stack pointer and steps the pointer
    /// down, leaving the slot in place.
    fn pop(&mut self) -> (obj: ObjectType)
        requires
            old(self).wf(),
            old(self).sp >= 1,
        ensures
            final(self).wf(),
            final(self).instructions == old(self).instructions,
            final(self).constants == old(self).constants,
            final(self).global == old(self).global,
            final(self).stack == old(self).stack,
            final(self).sp == old(self).sp - 1,
            obj == old(self).stack@[old(self).sp - 1],
    {
        let obj = self.stack[self.sp - 1];
        self.sp = self.sp - 1;
        obj
    }

    /// The fetch-decode-execute loop.  On well-formed code it realizes
    /// the step interpreter exactly: it returns `Ok` with the machine in
    /// the state `spec_run_from` maps the initial state to, or the error
    /// message of the runtime failure `spec_run_from` ends in.
    #[verifier::rlimit(60)]
    pub fn run(&mut self) -> (r: Result<(), String>)
        requires
            old(self).wf(),
            wf_code_from(
                old(self).instructions@,
                0,
                old(self).constants@.len(),
                old(self).global@.len(),
            ),
        ensures
            final(self).wf(),
            final(self).instructions == old(self).instructions,
            final(self).constants == old(self).constants,
            match r {
                Ok(_) => (spec_run_from(
                    old(self).instructions@,
                    old(self).constants@,
                    old(self).state_at(0),
                ) matches VmOutcome::Done(st) && st.stack == final(self).stack@
                    && st.sp == final(self).sp && st.globals == final(self).global@),
                Err(m) => (spec_run_from(
                    old(self).instructions@,
                    old(self).constants@,
                    old(self).state_at(0),
                ) matches VmOutcome::Failed(e) && m@ == spec_rt_err_text(e)),
            },
    {
        let ghost code = self.instructions@;
        let ghost consts = self.constants@;
        let ghost init = self.state_at(0);
        let n = self.instructions.0.len();
        let mut ip: usize = 0;
        while ip < n
            invariant
                self.wf(),
                self.instructions == old(self).instructions,
                self.constants == old(self).constants,
                n == self.instructions@.len(),
                code == self.instructions@,
                consts == self.constants@,
                ip <= n,
                init == old(self).state_at(0),
                wf_code_from(code, ip as nat, consts.len(), self.global@.len()),
                spec_run_from(code, consts, self.state_at(ip as nat)) == spec_run_from(
                    code,
                    consts,
                    init,
                ),
            decreases n - ip,
        {
            let ghost pre = self.state_at(ip as nat);
            let op_byte = self.instructions.0[ip];
            let op = match opcode_from_byte(op_byte) {
                Some(op) => op,
                None => {
                    proof {
                        assert(false);
                    }
                    return Err(String::new());
                },
            };
            match op {
                OpCode::OpConstant => {
                    let hi = self.instructions.0[ip + 1];
                    let lo = self.instructions.0[ip + 2];
                    let x: u16 = (hi as u16) * 256 + (lo as u16);
                    let constant = self.constants[x as usize];
                    match self.push(constant) {
                        Ok(_) => (),
                        Err(e) => {
                            proof {
                                assert(spec_run_from(code, consts, pre) == VmOutcome::Failed(e));
                            }
                            return Err(rt_err_text(e));
                        },
                    }
                    ip = ip + 3;
                },
                OpCode::OpAdd | OpCode::OpSub | OpCode::OpMul | OpCode::OpDiv | OpCode::OpEqual
                | OpCode::OpNotEqual | OpCode::OpGreaterThan => {
                    if self.sp < 2 {
                        proof {
                            assert(spec_run_from(code, consts, pre) == VmOutcome::Failed(
                                RuntimeError::StackUnderflow,
                            ));
                        }
                        return Err(rt_err_text(RuntimeError::StackUnderflow));
                    }
                    let right = self.pop();
                    let left = self.pop();
                    match self.execute_binary_operation(op, left, right) {
                        Ok(v) => {
                            match self.push(v) {
                                Ok(_) => (),
                                Err(_) => {
                                    proof {
                                        assert(false);
                                    }
                                    return Err(String::new());
                                },
                            }
                        },
                        Err(e) => {
                            proof {
                                assert(spec_run_from(code, consts, pre) == VmOutcome::Failed(e));
                            }
                            return Err(rt_err_text(e));
                        },
                    }
                    ip = ip + 1;
                },
                OpCode::OpPop => {
                    if self.sp < 1 {
                        proof {
                            assert(spec_run_from(code, consts, pre) == VmOutcome::Failed(
                                RuntimeError::StackUnderflow,
                            ));
                        }
                        return Err(rt_err_text(RuntimeError::StackUnderflow));
                    }
                    let _ = self.pop();
                    ip = ip + 1;
                },
                OpCode::OpTrue | OpCode::OpFalse | OpCode::OpNull => {
                    let v = if op == OpCode::OpTrue {
                        ObjectType::Boolean(true)
                    } else if op == OpCode::OpFalse {
                        ObjectType::Boolean(false)
                    } else {
                        ObjectType::Null
                    };
                    match self.push(v) {
                        Ok(_) => (),
                        Err(e) => {
                            proof {
                                assert(spec_run_from(code, consts, pre) == VmOutcome::Failed(e));
                            }
                            return Err(rt_err_text(e));
                        },
                    }
                    ip = ip + 1;
                },
                OpCode::OpBang => {
                    if self.sp < 1 {
                        proof {
                            assert(spec_run_from(code, consts, pre) == VmOutcome::Failed(
                                RuntimeError::StackUnderflow,
                            ));
                        }
                        return Err(rt_err_text(RuntimeError::StackUnderflow));
                    }
                    let operhand = self.pop();
                    let v = match operhand {
                        ObjectType::Boolean(value) => ObjectType::Boolean(!value),
                        ObjectType::Null => ObjectType::Boolean(true),
                        _ => ObjectType::Boolean(false),
                    };
                    match self.push(v) {
                        Ok(_) => (),
                        Err(_) => {
                            proof {
                                assert(false);
                            }
                            return Err(String::new());
                        },
                    }
                    ip = ip + 1;
                },
                OpCode::OpMinus => {
                    if self.sp < 1 {
                        proof {
                            assert(spec_run_from(code, consts, pre) == VmOutcome::Failed(
                                RuntimeError::StackUnderflow,
                            ));
                        }
                        return Err(rt_err_text(RuntimeError::StackUnderflow));
                    }
                    let operhand = self.pop();
                    match operhand {
                        ObjectType::Integer(value) => {
                            match (0i64).checked_sub(value) {
                                Some(negated) => {
                                    match self.push(ObjectType::Integer(negated)) {
                                        Ok(_) => (),
                                        Err(_) => {
                                            proof {
                                                assert(false);
                                            }
                                            return Err(String::new());
                                        },
                                    }
                                },
                                None => {
                                    proof {
                                        assert(spec_run_from(code, consts, pre)
                                            == VmOutcome::Failed(RuntimeError::IntegerOverflow));
                                    }
                                    return Err(rt_err_text(RuntimeError::IntegerOverflow));
                                },
                            }
                        },
                        _ => {
                            proof {
                                assert(spec_run_from(code, consts, pre) == VmOutcome::Failed(
                                    RuntimeError::TypeMismatch,
                                ));
                            }
                            return Err(rt_err_text(RuntimeError::TypeMismatch));
                        },
                    }
                    ip = ip + 1;
                },
                OpCode::OpJump => {
                    let hi = self.instructions.0[ip + 1];
                    let lo = self.instructions.0[ip + 2];
                    let position: u16 = (hi as u16) * 256 + (lo as u16);
                    ip = position as usize;
                },
                OpCode::OpJumpNotTruthy => {
                    let hi = self.instructions.0[ip + 1];
                    let lo = self.instructions.0[ip + 2];
                    let position: u16 = (hi as u16) * 256 + (lo as u16);
                    if self.sp < 1 {
                        proof {
                            assert(spec_run_from(code, consts, pre) == VmOutcome::Failed(
                                RuntimeError::StackUnderflow,
                            ));
                        }
                        return Err(rt_err_text(RuntimeError::StackUnderflow));
                    }
                    let condition = self.pop();
                    if !self.is_truthy(condition) {
                        ip = position as usize;
                    } else {
                        ip = ip + 3;
                    }
                },
                OpCode::OpSetGlobal => {
                    let hi = self.instructions.0[ip + 1];
                    let lo = self.instructions.0[ip + 2];
                    let position: u16 = (hi as u16) * 256 + (lo as u16);
                    if self.sp < 1 {
                        proof {
                            assert(spec_run_from(code, consts, pre) == VmOutcome::Failed(
                                RuntimeError::StackUnderflow,
                            ));
                        }
                        return Err(rt_err_text(RuntimeError::StackUnderflow));
                    }
                    let v = self.pop();
                    self.global.set(position as usize, v);
                    ip = ip + 3;
                },
                OpCode::OpGetGlobal => {
                    let hi = self.instructions.0[ip + 1];
                    let lo = self.instructions.0[ip + 2];
                    let position: u16 = (hi as u16) * 256 + (lo as u16);
                    let v = self.global[position as usize];
                    // A slot still holding the pre-fill sentinel was never
                    // written: reading it is a runtime error.
                    match v {
                        ObjectType::NoOp => {
                            proof {
                                assert(spec_run_from(code, consts, pre) == VmOutcome::Failed(
                                    RuntimeError::UninitializedGlobal,
                                ));
                            }
                            return Err(rt_err_text(RuntimeError::UninitializedGlobal));
                        },
                        _ => (),
                    }
                    match self.push(v) {
                        Ok(_) => (),
                        Err(e) => {
                            proof {
                                assert(spec_run_from(code, consts, pre) == VmOutcome::Failed(e));
                            }
                            return Err(rt_err_text(e));
                        },
                    }
                    ip = ip + 3;
                },
            }
            proof {
                assert(spec_run_from(code, consts, pre) == spec_run_from(
                    code,
                    consts,
                    self.state_at(ip as nat),
                ));
            }
        }
        Ok(())
    }

    /// The value on top of the stack, if any.
    pub fn stack_top(&self) -> (r: Option<ObjectType>)
        requires
            self.wf(),
        ensures
            r == if self.sp == 0 {
                Option::<ObjectType>::None
            } else {
                Some(self.stack@[self.sp - 1])
            },
    {
        if self.sp == 0 {
            return None;
        }
        Some(self.stack[self.sp - 1])
    }

    /// The element most recently popped off the stack: the value just
    /// above the stack pointer.  Before anything was popped this is the
    /// `NoOp` pre-fill.
    pub fn last_popped_stack_elem(&self) -> (r: ObjectType)
        ensures
            r == if self.sp < self.stack@.len() {
                self.stack@[self.sp as int]
            } else {
                ObjectType::NoOp
            },
    {
        if self.sp < self.stack.len() {
            self.stack[self.sp]
        } else {
            ObjectType::NoOp
        }
    }
}

} // verus!
