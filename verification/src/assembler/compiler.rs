use vstd::prelude::*;

use crate::assembler::ast::{
    AssignStatementData, AssignmentStatement, AssignmentType, AwaitCallOrIdentProduction,
    AwaitStatement, Call, CallValue, ElseStatement, ForLoopInstruction, ForLoopStatement,
    IfElseStatement, IfStatementCondition, NumericRange, Property, Statement, Value, X39File,
};
use crate::machine::memory::{Instruction, InstructionArg, PairModel, ValueModel, VmValue, VmValueType};
use crate::machine::vm_error::VmError;
use crate::machine::number::{
    NUMBER_INT_LIMIT, number_bits, number_bits_of, signed_number_bits, signed_number_bits_of,
};
use crate::machine::opcode::OpCode;
use crate::machine::vm_state::{StepEventModel, StepSpec, VmState, pool_index, step_core_spec};

verus! {

/// Errors of compilation: a program too large for the instruction format.
/// The closed statement and value grammars leave no unhandled shape, so
/// format limits are the only way compilation can fail.
#[derive(Debug, PartialEq, Eq, Structural, Copy, Clone)]
pub enum CompileError {
    /// The constant pool outgrew the unsigned instruction argument.
    PoolOverflow,
    /// A jump offset outgrew the signed instruction argument.
    JumpOverflow,
    /// A numeric range bound is too large to carry in a number value exactly.
    NumberOverflow,
}

/// The compiler's view of a program under construction: the constant pool
/// and the instruction stream.
pub struct CModel {
    pub pool: Seq<ValueModel>,
    pub code: Seq<Instruction>,
}

/// The model of a compiled state.
pub open spec fn state_model(s: VmState) -> CModel {
    CModel { pool: s.pool_models(), code: s.code() }
}

/// Intern a constant: the index of the first structurally equal pool entry,
/// the value being appended first when no entry equals it.
pub open spec fn lower_intern(m: CModel, v: ValueModel) -> Result<(CModel, u16), CompileError> {
    let f = pool_index(m.pool, v);
    if f >= 0 {
        if f <= u16::MAX {
            Ok((m, f as u16))
        } else {
            Err(CompileError::PoolOverflow)
        }
    } else if m.pool.len() <= u16::MAX {
        Ok(
            (
                CModel { pool: m.pool.push(v), code: m.code },
                m.pool.len() as u16,
            ),
        )
    } else {
        Err(CompileError::PoolOverflow)
    }
}

/// Append one instruction.
pub open spec fn lower_emit(m: CModel, opcode: OpCode, arg: InstructionArg) -> CModel {
    CModel { pool: m.pool, code: m.code.push(Instruction { opcode, arg }) }
}

/// Intern a constant and push it.
pub open spec fn lower_const(m: CModel, v: ValueModel) -> Result<CModel, CompileError> {
    match lower_intern(m, v) {
        Ok((m1, idx)) => Ok(lower_emit(m1, OpCode::PushValueU16, InstructionArg::Unsigned(idx))),
        Err(e) => Err(e),
    }
}

/// Push an interned name and read the variable, untyped.
pub open spec fn lower_ident(ident: Seq<char>, m: CModel) -> Result<CModel, CompileError> {
    match lower_const(m, ValueModel::String(ident)) {
        Ok(m1) => Ok(lower_emit(m1, OpCode::GetVariable, InstructionArg::Empty)),
        Err(e) => Err(e),
    }
}

/// Push an interned name and read the variable, checked against a type.
pub open spec fn lower_ident_of_type(ident: Seq<char>, t: VmValueType, m: CModel) -> Result<
    CModel,
    CompileError,
> {
    match lower_const(m, ValueModel::String(ident)) {
        Ok(m1) => Ok(lower_emit(m1, OpCode::GetVariableOfType, InstructionArg::Type(t))),
        Err(e) => Err(e),
    }
}

/// Unroll a numeric range: one interned constant plus append per integer in
/// `[from, to)`.
pub open spec fn lower_range(from: int, to: int, m: CModel) -> Result<CModel, CompileError>
    decreases to - from,
{
    if from >= to {
        Ok(m)
    } else if !(-(NUMBER_INT_LIMIT as int) < from < NUMBER_INT_LIMIT) {
        Err(CompileError::NumberOverflow)
    } else {
        match lower_const(m, ValueModel::Number(signed_number_bits_of(from))) {
            Ok(m1) => lower_range(
                from + 1,
                to,
                lower_emit(m1, OpCode::AppendArrayPush, InstructionArg::Empty),
            ),
            Err(e) => Err(e),
        }
    }
}

/// Lower a literal value onto the stack.
pub open spec fn lower_value(val: Value, m: CModel) -> Result<CModel, CompileError>
    decreases val, 1int,
{
    match val {
        Value::NumericRange(nr) => lower_range(
            nr.from as int,
            nr.to as int,
            lower_emit(m, OpCode::PushEmptyArray, InstructionArg::Empty),
        ),
        Value::Number(bits) => lower_const(m, ValueModel::Number(bits)),
        Value::Null => Ok(lower_emit(m, OpCode::PushNull, InstructionArg::Empty)),
        Value::String(s) => lower_const(m, ValueModel::String(s@)),
        Value::Boolean(b) => if b {
            Ok(lower_emit(m, OpCode::PushTrue, InstructionArg::Empty))
        } else {
            Ok(lower_emit(m, OpCode::PushFalse, InstructionArg::Empty))
        },
        Value::Object(props) => {
            proof {
                assert(decreases_to!(props => props@));
            }
            lower_props(props@, lower_emit(m, OpCode::PushEmptyObject, InstructionArg::Empty))
        },
        Value::Array(elements) => {
            proof {
                assert(decreases_to!(elements => elements@));
            }
            lower_elements(
                elements@,
                lower_emit(m, OpCode::PushEmptyArray, InstructionArg::Empty),
            )
        },
    }
}

/// Lower array elements: each element is lowered and appended in turn.
pub open spec fn lower_elements(vals: Seq<Value>, m: CModel) -> Result<CModel, CompileError>
    decreases vals, 0int,
{
    if vals.len() == 0 {
        Ok(m)
    } else {
        match lower_value(vals[0], m) {
            Ok(m1) => lower_elements(
                vals.drop_first(),
                lower_emit(m1, OpCode::AppendArrayPush, InstructionArg::Empty),
            ),
            Err(e) => Err(e),
        }
    }
}

/// Lower object properties: interned key, lowered value, append in turn.
pub open spec fn lower_props(props: Seq<Property>, m: CModel) -> Result<CModel, CompileError>
    decreases props, 0int,
{
    if props.len() == 0 {
        Ok(m)
    } else {
        match lower_const(m, ValueModel::String(props[0].key@)) {
            Ok(m1) => match lower_value(props[0].value, m1) {
                Ok(m2) => lower_props(
                    props.drop_first(),
                    lower_emit(m2, OpCode::AppendPropertyPush, InstructionArg::Empty),
                ),
                Err(e) => Err(e),
            },
            Err(e) => Err(e),
        }
    }
}

/// Lower a call: interned name, optional argument, then the call opcode.
pub open spec fn lower_call(c: Call, m: CModel) -> Result<CModel, CompileError>
    decreases c,
{
    match lower_const(m, ValueModel::String(c.ident@)) {
        Ok(m1) => match c.value {
            Some(cv) => match (match cv {
                CallValue::Ident(ident) => lower_ident(ident@, m1),
                CallValue::Value(value) => lower_value(value, m1),
            }) {
                Ok(m2) => Ok(lower_emit(m2, OpCode::Call, InstructionArg::Empty)),
                Err(e) => Err(e),
            },
            None => Ok(lower_emit(m1, OpCode::CallNoArg, InstructionArg::Empty)),
        },
        Err(e) => Err(e),
    }
}

/// Lower an awaited call or identifier: the job producer, then `Await`.
pub open spec fn lower_await_call_or_ident(a: AwaitCallOrIdentProduction, m: CModel) -> Result<
    CModel,
    CompileError,
>
    decreases a,
{
    match (match a {
        AwaitCallOrIdentProduction::Call(c) => lower_call(c, m),
        AwaitCallOrIdentProduction::Ident(ident) => lower_ident_of_type(
            ident@,
            VmValueType::Job,
            m,
        ),
    }) {
        Ok(m1) => Ok(lower_emit(m1, OpCode::Await, InstructionArg::Empty)),
        Err(e) => Err(e),
    }
}


/// Lower the job producer a for loop or assignment draws from.
pub open spec fn lower_for_source(over: ForLoopInstruction, m: CModel) -> Result<
    CModel,
    CompileError,
>
    decreases over,
{
    match over {
        ForLoopInstruction::Ident(ident) => lower_ident(ident@, m),
        ForLoopInstruction::Await(a) => lower_await_call_or_ident(a, m),
        ForLoopInstruction::Value(value) => lower_value(value, m),
    }
}

/// Lower the right-hand side of an assignment.
pub open spec fn lower_assign_data(d: AssignStatementData, m: CModel) -> Result<
    CModel,
    CompileError,
>
    decreases d,
{
    match d {
        AssignStatementData::Value(value) => lower_value(value, m),
        AssignStatementData::Await(a) => lower_await_call_or_ident(a, m),
        AssignStatementData::Start(c) => lower_call(c, m),
    }
}

/// Lower `ident = data`: data, interned name, `Assign`.
pub open spec fn lower_assign(ident: Seq<char>, d: AssignStatementData, m: CModel) -> Result<
    CModel,
    CompileError,
>
    decreases d,
{
    match lower_intern(m, ValueModel::String(ident)) {
        Ok((m1, idx)) => match lower_assign_data(d, m1) {
            Ok(m2) => Ok(
                lower_emit(
                    lower_emit(m2, OpCode::PushValueU16, InstructionArg::Unsigned(idx)),
                    OpCode::Assign,
                    InstructionArg::Empty,
                ),
            ),
            Err(e) => Err(e),
        },
        Err(e) => Err(e),
    }
}

/// Lower `ident += data`: read the array variable, data, append, reassign.
pub open spec fn lower_append(ident: Seq<char>, d: AssignStatementData, m: CModel) -> Result<
    CModel,
    CompileError,
>
    decreases d,
{
    match lower_intern(m, ValueModel::String(ident)) {
        Ok((m1, idx)) => {
            let m2 = lower_emit(
                lower_emit(m1, OpCode::PushValueU16, InstructionArg::Unsigned(idx)),
                OpCode::GetVariableOfType,
                InstructionArg::Type(VmValueType::Array),
            );
            match lower_assign_data(d, m2) {
                Ok(m3) => Ok(
                    lower_emit(
                        lower_emit(
                            lower_emit(m3, OpCode::AppendArrayPush, InstructionArg::Empty),
                            OpCode::PushValueU16,
                            InstructionArg::Unsigned(idx),
                        ),
                        OpCode::Assign,
                        InstructionArg::Empty,
                    ),
                ),
                Err(e) => Err(e),
            }
        },
        Err(e) => Err(e),
    }
}

/// Lower an assignment statement.
pub open spec fn lower_assignment(a: AssignmentStatement, m: CModel) -> Result<
    CModel,
    CompileError,
>
    decreases a,
{
    match a.value {
        AssignmentType::Append(d) => lower_append(a.ident@, d, m),
        AssignmentType::Assign(d) => lower_assign(a.ident@, d, m),
    }
}

/// Lower an await statement.
pub open spec fn lower_await_statement(aw: AwaitStatement, m: CModel) -> Result<
    CModel,
    CompileError,
>
    decreases aw,
{
    match aw {
        AwaitStatement::AwaitAny(ident) => match lower_ident_of_type(
            ident@,
            VmValueType::ArrayOfJobs,
            m,
        ) {
            Ok(m1) => Ok(lower_emit(m1, OpCode::AwaitAny, InstructionArg::Empty)),
            Err(e) => Err(e),
        },
        AwaitStatement::AwaitAll(ident) => match lower_ident_of_type(
            ident@,
            VmValueType::ArrayOfJobs,
            m,
        ) {
            Ok(m1) => Ok(lower_emit(m1, OpCode::AwaitAll, InstructionArg::Empty)),
            Err(e) => Err(e),
        },
        AwaitStatement::AwaitCallOrIdent(a) => lower_await_call_or_ident(a, m),
    }
}

/// Lower an if condition.
pub open spec fn lower_condition(c: IfStatementCondition, m: CModel) -> Result<
    CModel,
    CompileError,
>
    decreases c,
{
    match c {
        IfStatementCondition::Await(a) => lower_await_call_or_ident(a, m),
        IfStatementCondition::Ident(ident) => lower_ident(ident@, m),
    }
}

/// Lower an if/else chain: condition, placeholder conditional jump, the if
/// body; with an else part, a placeholder skip jump, then the else code,
/// each placeholder backpatched to land right after the code it skips,
/// relative to the already-advanced pointer.
pub open spec fn lower_if_else(ie: IfElseStatement, m: CModel) -> Result<CModel, CompileError>
    decreases ie, 1int,
{
    match lower_condition(ie.if_statement.condition, m) {
        Ok(m1) => {
            let jpos = m1.code.len() as int;
            let m2 = lower_emit(m1, OpCode::JumpIfFalse, InstructionArg::Signed(0));
            match ({
                proof {
                    assert(decreases_to!(ie.if_statement.code => ie.if_statement.code@));
                }
                lower_statements(ie.if_statement.code@, m2)
            }) {
                Ok(m3) => match ie.else_statement {
                    None => {
                        let off = m3.code.len() - jpos - 1;
                        if off > i16::MAX {
                            Err(CompileError::JumpOverflow)
                        } else {
                            Ok(
                                CModel {
                                    pool: m3.pool,
                                    code: m3.code.update(
                                        jpos,
                                        (Instruction {
                                            opcode: OpCode::JumpIfFalse,
                                            arg: InstructionArg::Signed(off as i16),
                                        }),
                                    ),
                                },
                            )
                        }
                    },
                    Some(els) => {
                        let spos = m3.code.len() as int;
                        let m4 = lower_emit(m3, OpCode::Jump, InstructionArg::Signed(0));
                        let off1 = m4.code.len() - jpos - 1;
                        if off1 > i16::MAX {
                            Err(CompileError::JumpOverflow)
                        } else {
                            let m5 = CModel {
                                pool: m4.pool,
                                code: m4.code.update(
                                    jpos,
                                    (Instruction {
                                        opcode: OpCode::JumpIfFalse,
                                        arg: InstructionArg::Signed(off1 as i16),
                                    }),
                                ),
                            };
                            match (match els {
                                ElseStatement::Code(c) => {
                                    proof {
                                        assert(decreases_to!(c => c@));
                                    }
                                    lower_statements(c@, m5)
                                },
                                ElseStatement::IfElse(b) => lower_if_else(*b, m5),
                            }) {
                                Ok(m6) => {
                                    let off2 = m6.code.len() - spos - 1;
                                    if off2 > i16::MAX {
                                        Err(CompileError::JumpOverflow)
                                    } else {
                                        Ok(
                                            CModel {
                                                pool: m6.pool,
                                                code: m6.code.update(
                                                    spos,
                                                    (Instruction {
                                                        opcode: OpCode::Jump,
                                                        arg: InstructionArg::Signed(off2 as i16),
                                                    }),
                                                ),
                                            },
                                        )
                                    }
                                },
                                Err(e) => Err(e),
                            }
                        }
                    },
                },
                Err(e) => Err(e),
            }
        },
        Err(e) => Err(e),
    }
}

/// Lower a for loop: the source collection, the cursor constant, the
/// iterate-or-exit jump, binding of the loop variable, the body, the
/// backward jump to the iterate instruction, and the backpatched exit
/// offset landing right after the backward jump.
pub open spec fn lower_for_loop(fl: ForLoopStatement, m: CModel) -> Result<CModel, CompileError>
    decreases fl, 1int,
{
    match lower_for_source(fl.over, m) {
        Ok(m1) => match lower_const(m1, ValueModel::Number(0)) {
            Ok(m2) => {
                let jpos = m2.code.len() as int;
                let m3 = lower_emit(m2, OpCode::JumpIterate, InstructionArg::Signed(0));
                match lower_const(m3, ValueModel::String(fl.ident@)) {
                    Ok(m4) => {
                        let m5 = lower_emit(m4, OpCode::Assign, InstructionArg::Empty);
                        match ({
                            proof {
                                assert(decreases_to!(fl.code => fl.code@));
                            }
                            lower_statements(fl.code@, m5)
                        }) {
                            Ok(m6) => {
                                let bpos = m6.code.len() as int;
                                let back = jpos - (bpos + 1);
                                if back < i16::MIN {
                                    Err(CompileError::JumpOverflow)
                                } else {
                                    let m7 = lower_emit(
                                        m6,
                                        OpCode::Jump,
                                        InstructionArg::Signed(back as i16),
                                    );
                                    let xoff = m7.code.len() - jpos - 1;
                                    if xoff > i16::MAX {
                                        Err(CompileError::JumpOverflow)
                                    } else {
                                        Ok(
                                            CModel {
                                                pool: m7.pool,
                                                code: m7.code.update(
                                                    jpos,
                                                    (Instruction {
                                                        opcode: OpCode::JumpIterate,
                                                        arg: InstructionArg::Signed(xoff as i16),
                                                    }),
                                                ),
                                            },
                                        )
                                    }
                                }
                            },
                            Err(e) => Err(e),
                        }
                    },
                    Err(e) => Err(e),
                }
            },
            Err(e) => Err(e),
        },
        Err(e) => Err(e),
    }
}

/// Lower one statement.
pub open spec fn lower_statement(s: Statement, m: CModel) -> Result<CModel, CompileError>
    decreases s, 1int,
{
    match s {
        Statement::Await(aw) => lower_await_statement(aw, m),
        Statement::Abort(ident) => match lower_ident_of_type(ident@, VmValueType::Job, m) {
            Ok(m1) => Ok(lower_emit(m1, OpCode::Abort, InstructionArg::Empty)),
            Err(e) => Err(e),
        },
        Statement::AbortAll(ident) => match lower_ident_of_type(
            ident@,
            VmValueType::ArrayOfJobs,
            m,
        ) {
            Ok(m1) => Ok(lower_emit(m1, OpCode::AbortAll, InstructionArg::Empty)),
            Err(e) => Err(e),
        },
        Statement::Exit => Ok(
            lower_emit(
                lower_emit(m, OpCode::PushNull, InstructionArg::Empty),
                OpCode::Exit,
                InstructionArg::Empty,
            ),
        ),
        Statement::Comment => Ok(m),
        Statement::Start(c) => match lower_call(c, m) {
            Ok(m1) => Ok(lower_emit(m1, OpCode::Pop, InstructionArg::Empty)),
            Err(e) => Err(e),
        },
        Statement::IfElse(ie) => lower_if_else(ie, m),
        Statement::ForLoop(fl) => lower_for_loop(fl, m),
        Statement::Assignment(a) => lower_assignment(a, m),
        Statement::Print(ident) => match lower_const(m, ValueModel::String(ident@)) {
            Ok(m1) => Ok(
                lower_emit(
                    lower_emit(m1, OpCode::GetVariable, InstructionArg::Empty),
                    OpCode::PrintToConsole,
                    InstructionArg::Empty,
                ),
            ),
            Err(e) => Err(e),
        },
    }
}

/// Lower a statement sequence, in order.
pub open spec fn lower_statements(ss: Seq<Statement>, m: CModel) -> Result<CModel, CompileError>
    decreases ss, 0int,
{
    if ss.len() == 0 {
        Ok(m)
    } else {
        match lower_statement(ss[0], m) {
            Ok(m1) => lower_statements(ss.drop_first(), m1),
            Err(e) => Err(e),
        }
    }
}

/// Lower a whole file into a fresh program.
pub open spec fn lower_file(file: X39File) -> Result<CModel, CompileError> {
    lower_statements(
        file.statements@,
        CModel { pool: Seq::empty(), code: Seq::empty() },
    )
}


/// Map a full pool to the compile error the instruction format forces.
fn intern(vm: &mut VmState, value: VmValue) -> (r: Result<u16, CompileError>)
    ensures
        final(vm).ip() == old(vm).ip(),
        final(vm).code() == old(vm).code(),
        match r {
            Ok(idx) => lower_intern(state_model(*old(vm)), value.model()) == Ok::<
                (CModel, u16),
                CompileError,
            >((state_model(*final(vm)), idx)),
            Err(e) => lower_intern(state_model(*old(vm)), value.model()) == Err::<
                (CModel, u16),
                CompileError,
            >(e),
        },
{
    proof {
        crate::machine::vm_state::lemma_pool_index(state_model(*vm).pool, value.model());
    }
    match vm.value_index(value) {
        Some(idx) => Ok(idx),
        None => Err(CompileError::PoolOverflow),
    }
}

/// Intern a constant and emit the push instruction for it.
fn compile_const(value: VmValue, vm: &mut VmState) -> (r: Result<(), CompileError>)
    ensures
        final(vm).ip() == old(vm).ip(),
        match r {
            Ok(()) => lower_const(state_model(*old(vm)), value.model()) == Ok::<
                CModel,
                CompileError,
            >(state_model(*final(vm))) && final(vm).code().len() > old(vm).code().len(),
            Err(e) => lower_const(state_model(*old(vm)), value.model()) == Err::<
                CModel,
                CompileError,
            >(e),
        },
{
    let value_index = intern(vm, value)?;
    vm.push_instruction(Instruction::op_push_value_u16(value_index));
    Ok(())
}

fn compile_number(number: u64, vm: &mut VmState) -> (r: Result<(), CompileError>)
    ensures
        final(vm).ip() == old(vm).ip(),
        match r {
            Ok(()) => lower_const(state_model(*old(vm)), ValueModel::Number(number)) == Ok::<
                CModel,
                CompileError,
            >(state_model(*final(vm))) && final(vm).code().len() > old(vm).code().len(),
            Err(e) => lower_const(state_model(*old(vm)), ValueModel::Number(number)) == Err::<
                CModel,
                CompileError,
            >(e),
        },
{
    compile_const(VmValue::Number(number), vm)
}

fn compile_string(string: String, vm: &mut VmState) -> (r: Result<(), CompileError>)
    ensures
        final(vm).ip() == old(vm).ip(),
        match r {
            Ok(()) => lower_const(state_model(*old(vm)), ValueModel::String(string@)) == Ok::<
                CModel,
                CompileError,
            >(state_model(*final(vm))) && final(vm).code().len() > old(vm).code().len(),
            Err(e) => lower_const(state_model(*old(vm)), ValueModel::String(string@)) == Err::<
                CModel,
                CompileError,
            >(e),
        },
{
    compile_const(VmValue::String(string), vm)
}

fn compile_null(vm: &mut VmState)
    ensures
        final(vm).ip() == old(vm).ip(),
        state_model(*final(vm)) == lower_emit(
            state_model(*old(vm)),
            OpCode::PushNull,
            InstructionArg::Empty,
        ),
{
    vm.push_instruction(Instruction::op_push_null());
}

fn compile_boolean(boolean: bool, vm: &mut VmState)
    ensures
        final(vm).ip() == old(vm).ip(),
        boolean ==> state_model(*final(vm)) == lower_emit(
            state_model(*old(vm)),
            OpCode::PushTrue,
            InstructionArg::Empty,
        ),
        !boolean ==> state_model(*final(vm)) == lower_emit(
            state_model(*old(vm)),
            OpCode::PushFalse,
            InstructionArg::Empty,
        ),
{
    vm.push_instruction(Instruction::op_push_boolean(boolean));
}

fn compile_ident(ident: &str, vm: &mut VmState) -> (r: Result<(), CompileError>)
    ensures
        final(vm).ip() == old(vm).ip(),
        match r {
            Ok(()) => lower_ident(ident@, state_model(*old(vm))) == Ok::<CModel, CompileError>(
                state_model(*final(vm)),
            ) && final(vm).code().len() > old(vm).code().len(),
            Err(e) => lower_ident(ident@, state_model(*old(vm))) == Err::<CModel, CompileError>(e),
        },
{
    compile_const(VmValue::String(ident.to_owned()), vm)?;
    vm.push_instruction(Instruction::op_get_variable());
    Ok(())
}

fn compile_ident_of_type(ident: &str, value_type: VmValueType, vm: &mut VmState) -> (r: Result<
    (),
    CompileError,
>)
    ensures
        final(vm).ip() == old(vm).ip(),
        match r {
            Ok(()) => lower_ident_of_type(ident@, value_type, state_model(*old(vm))) == Ok::<
                CModel,
                CompileError,
            >(state_model(*final(vm))) && final(vm).code().len() > old(vm).code().len(),
            Err(e) => lower_ident_of_type(ident@, value_type, state_model(*old(vm))) == Err::<
                CModel,
                CompileError,
            >(e),
        },
{
    compile_const(VmValue::String(ident.to_owned()), vm)?;
    vm.push_instruction(Instruction::op_get_variable_of_type(value_type));
    Ok(())
}

fn compile_ident_job(ident: &str, vm: &mut VmState) -> (r: Result<(), CompileError>)
    ensures
        final(vm).ip() == old(vm).ip(),
        match r {
            Ok(()) => lower_ident_of_type(ident@, VmValueType::Job, state_model(*old(vm)))
                == Ok::<CModel, CompileError>(state_model(*final(vm))) && final(vm).code().len()
                > old(vm).code().len(),
            Err(e) => lower_ident_of_type(ident@, VmValueType::Job, state_model(*old(vm)))
                == Err::<CModel, CompileError>(e),
        },
{
    compile_ident_of_type(ident, VmValueType::Job, vm)
}

#[verifier::loop_isolation(false)]
fn compile_numeric_range(numeric_range: &NumericRange, vm: &mut VmState) -> (r: Result<
    (),
    CompileError,
>)
    ensures
        final(vm).ip() == old(vm).ip(),
        ({
            let lowered = lower_range(
                numeric_range.from as int,
                numeric_range.to as int,
                lower_emit(state_model(*old(vm)), OpCode::PushEmptyArray, InstructionArg::Empty),
            );
            match r {
                Ok(()) => lowered == Ok::<CModel, CompileError>(state_model(*final(vm)))
                    && final(vm).code().len() > old(vm).code().len(),
                Err(e) => lowered == Err::<CModel, CompileError>(e),
            }
        }),
{
    vm.push_instruction(Instruction::op_push_empty_array());
    let ghost m0 = state_model(*vm);
    let mut i: i64 = numeric_range.from;
    if i >= numeric_range.to {
        return Ok(());
    }
    while i < numeric_range.to
        invariant
            numeric_range.from <= i <= numeric_range.to,
            vm.ip() == old(vm).ip(),
            vm.code().len() >= old(vm).code().len() + 1,
            lower_range(numeric_range.from as int, numeric_range.to as int, m0) == lower_range(
                i as int,
                numeric_range.to as int,
                state_model(*vm),
            ),
        decreases numeric_range.to - i,
    {
        match signed_number_bits(i) {
            Some(bits) => {
                compile_const(VmValue::Number(bits), vm)?;
                vm.push_instruction(Instruction::op_append_array_push());
            },
            None => {
                return Err(CompileError::NumberOverflow);
            },
        }
        i = i + 1;
    }
    Ok(())
}

#[verifier::loop_isolation(false)]
fn compile_array(array: &Vec<Value>, vm: &mut VmState) -> (r: Result<(), CompileError>)
    ensures
        final(vm).ip() == old(vm).ip(),
        ({
            let lowered = lower_elements(
                array@,
                lower_emit(state_model(*old(vm)), OpCode::PushEmptyArray, InstructionArg::Empty),
            );
            match r {
                Ok(()) => lowered == Ok::<CModel, CompileError>(state_model(*final(vm)))
                    && final(vm).code().len() > old(vm).code().len(),
                Err(e) => lowered == Err::<CModel, CompileError>(e),
            }
        }),
    decreases array@, 0int,
{
    vm.push_instruction(Instruction::op_push_empty_array());
    let ghost m0 = state_model(*vm);
    proof {
        assert(array@.subrange(0, array@.len() as int) =~= array@);
    }
    let mut i: usize = 0;
    while i < array.len()
        invariant
            0 <= i <= array@.len(),
            vm.ip() == old(vm).ip(),
            vm.code().len() >= old(vm).code().len() + 1,
            lower_elements(array@, m0) == lower_elements(
                array@.subrange(i as int, array@.len() as int),
                state_model(*vm),
            ),
        decreases array@.len() - i,
    {
        proof {
            assert(decreases_to!(array@ => array@[i as int]));
            assert(array@.subrange(i as int, array@.len() as int)[0] == array@[i as int]);
        }
        compile_value(&array[i], vm)?;
        vm.push_instruction(Instruction::op_append_array_push());
        proof {
            assert(array@.subrange(i as int, array@.len() as int).drop_first()
                =~= array@.subrange(i + 1, array@.len() as int));
        }
        i = i + 1;
    }
    proof {
        assert(array@.subrange(array@.len() as int, array@.len() as int).len() == 0);
    }
    Ok(())
}

#[verifier::loop_isolation(false)]
fn compile_object(object: &Vec<Property>, vm: &mut VmState) -> (r: Result<(), CompileError>)
    ensures
        final(vm).ip() == old(vm).ip(),
        ({
            let lowered = lower_props(
                object@,
                lower_emit(state_model(*old(vm)), OpCode::PushEmptyObject, InstructionArg::Empty),
            );
            match r {
                Ok(()) => lowered == Ok::<CModel, CompileError>(state_model(*final(vm)))
                    && final(vm).code().len() > old(vm).code().len(),
                Err(e) => lowered == Err::<CModel, CompileError>(e),
            }
        }),
    decreases object@, 0int,
{
    vm.push_instruction(Instruction::op_push_empty_object());
    let ghost m0 = state_model(*vm);
    proof {
        assert(object@.subrange(0, object@.len() as int) =~= object@);
    }
    let mut i: usize = 0;
    while i < object.len()
        invariant
            0 <= i <= object@.len(),
            vm.ip() == old(vm).ip(),
            vm.code().len() >= old(vm).code().len() + 1,
            lower_props(object@, m0) == lower_props(
                object@.subrange(i as int, object@.len() as int),
                state_model(*vm),
            ),
        decreases object@.len() - i,
    {
        proof {
            assert(decreases_to!(object@ => object@[i as int]));
            assert(object@.subrange(i as int, object@.len() as int)[0] == object@[i as int]);
        }
        let key = object[i].key.clone();
        compile_const(VmValue::String(key), vm)?;
        compile_value(&object[i].value, vm)?;
        vm.push_instruction(Instruction::op_append_property_push());
        proof {
            assert(object@.subrange(i as int, object@.len() as int).drop_first()
                =~= object@.subrange(i + 1, object@.len() as int));
        }
        i = i + 1;
    }
    proof {
        assert(object@.subrange(object@.len() as int, object@.len() as int).len() == 0);
    }
    Ok(())
}

fn compile_value(value: &Value, vm: &mut VmState) -> (r: Result<(), CompileError>)
    ensures
        final(vm).ip() == old(vm).ip(),
        match r {
            Ok(()) => lower_value(*value, state_model(*old(vm))) == Ok::<CModel, CompileError>(
                state_model(*final(vm)),
            ) && final(vm).code().len() > old(vm).code().len(),
            Err(e) => lower_value(*value, state_model(*old(vm))) == Err::<CModel, CompileError>(e),
        },
    decreases *value, 1int,
{
    match value {
        Value::NumericRange(numeric_range) => compile_numeric_range(numeric_range, vm),
        Value::Number(number) => compile_number(*number, vm),
        Value::Null => {
            compile_null(vm);
            Ok(())
        },
        Value::String(string) => compile_string(string.clone(), vm),
        Value::Boolean(boolean) => {
            compile_boolean(*boolean, vm);
            Ok(())
        },
        Value::Object(object) => {
            proof {
                assert(decreases_to!(*object => object@));
            }
            compile_object(object, vm)
        },
        Value::Array(array) => {
            proof {
                assert(decreases_to!(*array => array@));
            }
            compile_array(array, vm)
        },
    }
}


fn compile_call(call: &Call, vm: &mut VmState) -> (r: Result<(), CompileError>)
    ensures
        final(vm).ip() == old(vm).ip(),
        match r {
            Ok(()) => lower_call(*call, state_model(*old(vm))) == Ok::<CModel, CompileError>(
                state_model(*final(vm)),
            ) && final(vm).code().len() > old(vm).code().len(),
            Err(e) => lower_call(*call, state_model(*old(vm))) == Err::<CModel, CompileError>(e),
        },
{
    compile_const(VmValue::String(call.ident.clone()), vm)?;
    match &call.value {
        Some(value) => {
            compile_call_value(value, vm)?;
            vm.push_instruction(Instruction::op_call());
        },
        None => {
            vm.push_instruction(Instruction::op_call_no_arg());
        },
    }
    Ok(())
}

fn compile_call_value(call_value: &CallValue, vm: &mut VmState) -> (r: Result<(), CompileError>)
    ensures
        final(vm).ip() == old(vm).ip(),
        ({
            let lowered = match *call_value {
                CallValue::Ident(ident) => lower_ident(ident@, state_model(*old(vm))),
                CallValue::Value(value) => lower_value(value, state_model(*old(vm))),
            };
            match r {
                Ok(()) => lowered == Ok::<CModel, CompileError>(state_model(*final(vm))) && final(vm).code().len() > old(vm).code().len(),
                Err(e) => lowered == Err::<CModel, CompileError>(e),
            }
        }),
{
    match call_value {
        CallValue::Ident(ident) => compile_ident(ident.as_str(), vm),
        CallValue::Value(value) => compile_value(value, vm),
    }
}

fn compile_await_call_or_ident(
    await_call_or_ident: &AwaitCallOrIdentProduction,
    vm: &mut VmState,
) -> (r: Result<(), CompileError>)
    ensures
        final(vm).ip() == old(vm).ip(),
        match r {
            Ok(()) => lower_await_call_or_ident(*await_call_or_ident, state_model(*old(vm)))
                == Ok::<CModel, CompileError>(state_model(*final(vm))) && final(vm).code().len()
                > old(vm).code().len(),
            Err(e) => lower_await_call_or_ident(*await_call_or_ident, state_model(*old(vm)))
                == Err::<CModel, CompileError>(e),
        },
{
    match await_call_or_ident {
        AwaitCallOrIdentProduction::Call(call) => compile_call(call, vm)?,
        AwaitCallOrIdentProduction::Ident(ident) => compile_ident_job(ident.as_str(), vm)?,
    }
    vm.push_instruction(Instruction::op_await());
    Ok(())
}

fn compile_start(call: &Call, vm: &mut VmState) -> (r: Result<(), CompileError>)
    ensures
        final(vm).ip() == old(vm).ip(),
        match r {
            Ok(()) => lower_call(*call, state_model(*old(vm))) == Ok::<CModel, CompileError>(
                state_model(*final(vm)),
            ) && final(vm).code().len() > old(vm).code().len(),
            Err(e) => lower_call(*call, state_model(*old(vm))) == Err::<CModel, CompileError>(e),
        },
{
    compile_call(call, vm)
}

fn compile_abort(abort_ident: &str, vm: &mut VmState) -> (r: Result<(), CompileError>)
    ensures
        final(vm).ip() == old(vm).ip(),
        ({
            let lowered = match lower_ident_of_type(
                abort_ident@,
                VmValueType::Job,
                state_model(*old(vm)),
            ) {
                Ok(m1) => Ok::<CModel, CompileError>(
                    lower_emit(m1, OpCode::Abort, InstructionArg::Empty),
                ),
                Err(e) => Err::<CModel, CompileError>(e),
            };
            match r {
                Ok(()) => lowered == Ok::<CModel, CompileError>(state_model(*final(vm))) && final(vm).code().len() > old(vm).code().len(),
                Err(e) => lowered == Err::<CModel, CompileError>(e),
            }
        }),
{
    compile_ident_of_type(abort_ident, VmValueType::Job, vm)?;
    vm.push_instruction(Instruction::op_abort());
    Ok(())
}

fn compile_abort_all(abort_ident: &str, vm: &mut VmState) -> (r: Result<(), CompileError>)
    ensures
        final(vm).ip() == old(vm).ip(),
        ({
            let lowered = match lower_ident_of_type(
                abort_ident@,
                VmValueType::ArrayOfJobs,
                state_model(*old(vm)),
            ) {
                Ok(m1) => Ok::<CModel, CompileError>(
                    lower_emit(m1, OpCode::AbortAll, InstructionArg::Empty),
                ),
                Err(e) => Err::<CModel, CompileError>(e),
            };
            match r {
                Ok(()) => lowered == Ok::<CModel, CompileError>(state_model(*final(vm))) && final(vm).code().len() > old(vm).code().len(),
                Err(e) => lowered == Err::<CModel, CompileError>(e),
            }
        }),
{
    compile_ident_of_type(abort_ident, VmValueType::ArrayOfJobs, vm)?;
    vm.push_instruction(Instruction::op_abort_all());
    Ok(())
}

fn compile_print(ident: &str, vm: &mut VmState) -> (r: Result<(), CompileError>)
    ensures
        final(vm).ip() == old(vm).ip(),
        ({
            let lowered = match lower_const(
                state_model(*old(vm)),
                ValueModel::String(ident@),
            ) {
                Ok(m1) => Ok::<CModel, CompileError>(
                    lower_emit(
                        lower_emit(m1, OpCode::GetVariable, InstructionArg::Empty),
                        OpCode::PrintToConsole,
                        InstructionArg::Empty,
                    ),
                ),
                Err(e) => Err::<CModel, CompileError>(e),
            };
            match r {
                Ok(()) => lowered == Ok::<CModel, CompileError>(state_model(*final(vm))) && final(vm).code().len() > old(vm).code().len(),
                Err(e) => lowered == Err::<CModel, CompileError>(e),
            }
        }),
{
    compile_const(VmValue::String(ident.to_owned()), vm)?;
    vm.push_instruction(Instruction::op_get_variable());
    vm.push_instruction(Instruction::op_print_to_console());
    Ok(())
}

fn compile_await(await_statement: &AwaitStatement, vm: &mut VmState) -> (r: Result<
    (),
    CompileError,
>)
    ensures
        final(vm).ip() == old(vm).ip(),
        match r {
            Ok(()) => lower_await_statement(*await_statement, state_model(*old(vm))) == Ok::<
                CModel,
                CompileError,
            >(state_model(*final(vm))) && final(vm).code().len() > old(vm).code().len(),
            Err(e) => lower_await_statement(*await_statement, state_model(*old(vm))) == Err::<
                CModel,
                CompileError,
            >(e),
        },
{
    match await_statement {
        AwaitStatement::AwaitAny(await_any) => compile_await_any(await_any.as_str(), vm),
        AwaitStatement::AwaitAll(await_all) => compile_await_all(await_all.as_str(), vm),
        AwaitStatement::AwaitCallOrIdent(a) => compile_await_call_or_ident(a, vm),
    }
}

fn compile_await_all(await_all: &str, vm: &mut VmState) -> (r: Result<(), CompileError>)
    ensures
        final(vm).ip() == old(vm).ip(),
        ({
            let lowered = match lower_ident_of_type(
                await_all@,
                VmValueType::ArrayOfJobs,
                state_model(*old(vm)),
            ) {
                Ok(m1) => Ok::<CModel, CompileError>(
                    lower_emit(m1, OpCode::AwaitAll, InstructionArg::Empty),
                ),
                Err(e) => Err::<CModel, CompileError>(e),
            };
            match r {
                Ok(()) => lowered == Ok::<CModel, CompileError>(state_model(*final(vm))) && final(vm).code().len() > old(vm).code().len(),
                Err(e) => lowered == Err::<CModel, CompileError>(e),
            }
        }),
{
    compile_ident_of_type(await_all, VmValueType::ArrayOfJobs, vm)?;
    vm.push_instruction(Instruction::op_await_all());
    Ok(())
}

fn compile_await_any(await_any: &str, vm: &mut VmState) -> (r: Result<(), CompileError>)
    ensures
        final(vm).ip() == old(vm).ip(),
        ({
            let lowered = match lower_ident_of_type(
                await_any@,
                VmValueType::ArrayOfJobs,
                state_model(*old(vm)),
            ) {
                Ok(m1) => Ok::<CModel, CompileError>(
                    lower_emit(m1, OpCode::AwaitAny, InstructionArg::Empty),
                ),
                Err(e) => Err::<CModel, CompileError>(e),
            };
            match r {
                Ok(()) => lowered == Ok::<CModel, CompileError>(state_model(*final(vm))) && final(vm).code().len() > old(vm).code().len(),
                Err(e) => lowered == Err::<CModel, CompileError>(e),
            }
        }),
{
    compile_ident_of_type(await_any, VmValueType::ArrayOfJobs, vm)?;
    vm.push_instruction(Instruction::op_await_any());
    Ok(())
}

fn compile_exit(vm: &mut VmState)
    ensures
        final(vm).ip() == old(vm).ip(),
        state_model(*final(vm)) == lower_emit(
            lower_emit(state_model(*old(vm)), OpCode::PushNull, InstructionArg::Empty),
            OpCode::Exit,
            InstructionArg::Empty,
        ),
        final(vm).code().len() > old(vm).code().len(),
{
    vm.push_instruction(Instruction::op_push_null());
    vm.push_instruction(Instruction::op_exit());
}

fn compile_assignment_assign(assign: &AssignStatementData, ident: String, vm: &mut VmState) -> (r:
    Result<(), CompileError>)
    ensures
        final(vm).ip() == old(vm).ip(),
        match r {
            Ok(()) => lower_assign(ident@, *assign, state_model(*old(vm))) == Ok::<
                CModel,
                CompileError,
            >(state_model(*final(vm))) && final(vm).code().len() > old(vm).code().len(),
            Err(e) => lower_assign(ident@, *assign, state_model(*old(vm))) == Err::<
                CModel,
                CompileError,
            >(e),
        },
{
    let value_index = intern(vm, VmValue::String(ident))?;
    match assign {
        AssignStatementData::Value(value) => compile_value(value, vm)?,
        AssignStatementData::Await(a) => compile_await_call_or_ident(a, vm)?,
        AssignStatementData::Start(start) => compile_start(start, vm)?,
    }
    vm.push_instruction(Instruction::op_push_value_u16(value_index));
    vm.push_instruction(Instruction::op_assign());
    Ok(())
}

fn compile_assignment_append(append: &AssignStatementData, ident: String, vm: &mut VmState) -> (r:
    Result<(), CompileError>)
    ensures
        final(vm).ip() == old(vm).ip(),
        match r {
            Ok(()) => lower_append(ident@, *append, state_model(*old(vm))) == Ok::<
                CModel,
                CompileError,
            >(state_model(*final(vm))) && final(vm).code().len() > old(vm).code().len(),
            Err(e) => lower_append(ident@, *append, state_model(*old(vm))) == Err::<
                CModel,
                CompileError,
            >(e),
        },
{
    let value_index = intern(vm, VmValue::String(ident))?;
    vm.push_instruction(Instruction::op_push_value_u16(value_index));
    vm.push_instruction(Instruction::op_get_variable_of_type(VmValueType::Array));
    match append {
        AssignStatementData::Value(value) => compile_value(value, vm)?,
        AssignStatementData::Await(a) => compile_await_call_or_ident(a, vm)?,
        AssignStatementData::Start(start) => compile_start(start, vm)?,
    }
    vm.push_instruction(Instruction::op_append_array_push());
    vm.push_instruction(Instruction::op_push_value_u16(value_index));
    vm.push_instruction(Instruction::op_assign());
    Ok(())
}

fn compile_assignment(assignment_statement: &AssignmentStatement, vm: &mut VmState) -> (r: Result<
    (),
    CompileError,
>)
    ensures
        final(vm).ip() == old(vm).ip(),
        match r {
            Ok(()) => lower_assignment(*assignment_statement, state_model(*old(vm))) == Ok::<
                CModel,
                CompileError,
            >(state_model(*final(vm))) && final(vm).code().len() > old(vm).code().len(),
            Err(e) => lower_assignment(*assignment_statement, state_model(*old(vm))) == Err::<
                CModel,
                CompileError,
            >(e),
        },
{
    let key = assignment_statement.ident.clone();
    match &assignment_statement.value {
        AssignmentType::Append(append) => compile_assignment_append(append, key, vm),
        AssignmentType::Assign(assign) => compile_assignment_assign(assign, key, vm),
    }
}

fn compile_if_statement_condition(condition: &IfStatementCondition, vm: &mut VmState) -> (r:
    Result<(), CompileError>)
    ensures
        final(vm).ip() == old(vm).ip(),
        match r {
            Ok(()) => lower_condition(*condition, state_model(*old(vm))) == Ok::<
                CModel,
                CompileError,
            >(state_model(*final(vm))) && final(vm).code().len() > old(vm).code().len(),
            Err(e) => lower_condition(*condition, state_model(*old(vm))) == Err::<
                CModel,
                CompileError,
            >(e),
        },
{
    match condition {
        IfStatementCondition::Await(a) => compile_await_call_or_ident(a, vm),
        IfStatementCondition::Ident(ident) => compile_ident(ident.as_str(), vm),
    }
}

fn compile_if_else(if_else_statement: &IfElseStatement, vm: &mut VmState) -> (r: Result<
    (),
    CompileError,
>)
    ensures
        final(vm).ip() == old(vm).ip(),
        match r {
            Ok(()) => lower_if_else(*if_else_statement, state_model(*old(vm))) == Ok::<
                CModel,
                CompileError,
            >(state_model(*final(vm))) && final(vm).code().len() > old(vm).code().len(),
            Err(e) => lower_if_else(*if_else_statement, state_model(*old(vm))) == Err::<
                CModel,
                CompileError,
            >(e),
        },
    decreases *if_else_statement, 1int,
{
    compile_if_statement_condition(&if_else_statement.if_statement.condition, vm)?;
    let true_offset = vm.instructions.len();
    vm.push_instruction(Instruction::op_jump_if_false(0));
    proof {
        assert(decreases_to!(if_else_statement.if_statement.code
            => if_else_statement.if_statement.code@));
    }
    compile_statements(&if_else_statement.if_statement.code, vm)?;
    match &if_else_statement.else_statement {
        None => {
            let after_true_code_offset = vm.instructions.len();
            let off = after_true_code_offset - true_offset - 1;
            if off > i16::MAX as usize {
                return Err(CompileError::JumpOverflow);
            }
            vm.set_instruction(true_offset, Instruction::op_jump_if_false(off as i16));
            Ok(())
        },
        Some(else_statement) => {
            let skip_offset = vm.instructions.len();
            vm.push_instruction(Instruction::op_jump(0));
            let after_true_code_offset = vm.instructions.len();
            let off1 = after_true_code_offset - true_offset - 1;
            if off1 > i16::MAX as usize {
                return Err(CompileError::JumpOverflow);
            }
            vm.set_instruction(true_offset, Instruction::op_jump_if_false(off1 as i16));
            match else_statement {
                ElseStatement::Code(else_code) => {
                    proof {
                        assert(decreases_to!(*else_code => else_code@));
                    }
                    compile_statements(else_code, vm)?;
                },
                ElseStatement::IfElse(if_else) => {
                    compile_if_else(if_else, vm)?;
                },
            }
            let after_else_code_offset = vm.instructions.len();
            let off2 = after_else_code_offset - skip_offset - 1;
            if off2 > i16::MAX as usize {
                return Err(CompileError::JumpOverflow);
            }
            vm.set_instruction(skip_offset, Instruction::op_jump(off2 as i16));
            Ok(())
        },
    }
}

fn compile_for_loop(for_loop_statement: &ForLoopStatement, vm: &mut VmState) -> (r: Result<
    (),
    CompileError,
>)
    ensures
        final(vm).ip() == old(vm).ip(),
        match r {
            Ok(()) => lower_for_loop(*for_loop_statement, state_model(*old(vm))) == Ok::<
                CModel,
                CompileError,
            >(state_model(*final(vm))) && final(vm).code().len() > old(vm).code().len(),
            Err(e) => lower_for_loop(*for_loop_statement, state_model(*old(vm))) == Err::<
                CModel,
                CompileError,
            >(e),
        },
    decreases *for_loop_statement, 1int,
{
    match &for_loop_statement.over {
        ForLoopInstruction::Ident(ident) => compile_ident(ident.as_str(), vm)?,
        ForLoopInstruction::Await(a) => compile_await_call_or_ident(a, vm)?,
        ForLoopInstruction::Value(value) => compile_value(value, vm)?,
    }
    compile_const(VmValue::Number(0), vm)?;
    let jump_offset = vm.instructions.len();
    vm.push_instruction(Instruction::op_jump_iterate(0));
    compile_const(VmValue::String(for_loop_statement.ident.clone()), vm)?;
    vm.push_instruction(Instruction::op_assign());
    proof {
        assert(decreases_to!(for_loop_statement.code => for_loop_statement.code@));
    }
    compile_statements(&for_loop_statement.code, vm)?;
    let break_jump_offset = vm.instructions.len();
    if break_jump_offset - jump_offset > i16::MAX as usize {
        return Err(CompileError::JumpOverflow);
    }
    let magnitude = break_jump_offset - jump_offset + 1;
    let back = -(magnitude as i32);
    vm.push_instruction(Instruction::op_jump(back as i16));
    let next_offset = vm.instructions.len();
    let xoff = next_offset - jump_offset - 1;
    if xoff > i16::MAX as usize {
        return Err(CompileError::JumpOverflow);
    }
    vm.set_instruction(jump_offset, Instruction::op_jump_iterate(xoff as i16));
    Ok(())
}

fn compile_statement(statement: &Statement, vm: &mut VmState) -> (r: Result<(), CompileError>)
    ensures
        final(vm).ip() == old(vm).ip(),
        match r {
            Ok(()) => lower_statement(*statement, state_model(*old(vm))) == Ok::<
                CModel,
                CompileError,
            >(state_model(*final(vm))) && final(vm).code().len() >= old(vm).code().len(),
            Err(e) => lower_statement(*statement, state_model(*old(vm))) == Err::<
                CModel,
                CompileError,
            >(e),
        },
    decreases *statement, 1int,
{
    match statement {
        Statement::Await(await_statement) => compile_await(await_statement, vm),
        Statement::Abort(abort_ident) => compile_abort(abort_ident.as_str(), vm),
        Statement::AbortAll(abort_ident) => compile_abort_all(abort_ident.as_str(), vm),
        Statement::Exit => {
            compile_exit(vm);
            Ok(())
        },
        Statement::Comment => Ok(()),
        Statement::Start(call) => {
            compile_start(call, vm)?;
            vm.push_instruction(Instruction::op_pop());
            Ok(())
        },
        Statement::IfElse(if_else_statement) => compile_if_else(if_else_statement, vm),
        Statement::ForLoop(for_loop_statement) => compile_for_loop(for_loop_statement, vm),
        Statement::Assignment(assignment_statement) => compile_assignment(
            assignment_statement,
            vm,
        ),
        Statement::Print(ident) => compile_print(ident.as_str(), vm),
    }
}

#[verifier::loop_isolation(false)]
fn compile_statements(statements: &Vec<Statement>, vm: &mut VmState) -> (r: Result<
    (),
    CompileError,
>)
    ensures
        final(vm).ip() == old(vm).ip(),
        match r {
            Ok(()) => lower_statements(statements@, state_model(*old(vm))) == Ok::<
                CModel,
                CompileError,
            >(state_model(*final(vm))) && final(vm).code().len() >= old(vm).code().len(),
            Err(e) => lower_statements(statements@, state_model(*old(vm))) == Err::<
                CModel,
                CompileError,
            >(e),
        },
    decreases statements@, 0int,
{
    let ghost m0 = state_model(*vm);
    proof {
        assert(statements@.subrange(0, statements@.len() as int) =~= statements@);
    }
    let mut i: usize = 0;
    while i < statements.len()
        invariant
            0 <= i <= statements@.len(),
            vm.ip() == old(vm).ip(),
            vm.code().len() >= old(vm).code().len(),
            lower_statements(statements@, m0) == lower_statements(
                statements@.subrange(i as int, statements@.len() as int),
                state_model(*vm),
            ),
        decreases statements@.len() - i,
    {
        proof {
            assert(decreases_to!(statements@ => statements@[i as int]));
            assert(statements@.subrange(i as int, statements@.len() as int)[0] == statements@[
                i as int
            ]);
        }
        compile_statement(&statements[i], vm)?;
        proof {
            assert(statements@.subrange(i as int, statements@.len() as int).drop_first()
                =~= statements@.subrange(i + 1, statements@.len() as int));
        }
        i = i + 1;
    }
    proof {
        assert(statements@.subrange(statements@.len() as int, statements@.len() as int).len()
            == 0);
    }
    Ok(())
}

/// Compile a parsed file into a fresh program: every statement lowered in
/// order into the flat instruction stream, constants interned into the
/// deduplicated pool, and every jump backpatched.  The result is exactly
/// [`lower_file`]; compilation fails only where the program outgrows the
/// instruction format.
pub fn compile(file: X39File) -> (r: Result<VmState, CompileError>)
    ensures
        match r {
            Ok(state) => lower_file(file) == Ok::<CModel, CompileError>(state_model(state))
                && state.ip() == 0,
            Err(e) => lower_file(file) == Err::<CModel, CompileError>(e),
        },
{
    let mut vm = VmState::new();
    proof {
        assert(state_model(vm).pool =~= Seq::<ValueModel>::empty());
        assert(state_model(vm).code =~= Seq::<Instruction>::empty());
    }
    compile_statements(&file.statements, &mut vm)?;
    Ok(vm)
}


/// The constant pool holds no two structurally equal entries.
pub open spec fn pool_distinct(pool: Seq<ValueModel>) -> bool {
    forall|i: int, j: int| 0 <= i < j < pool.len() ==> #[trigger] pool[i] != #[trigger] pool[j]
}

/// A statement free of job work: no start, await or abort anywhere in it.
pub open spec fn stmt_job_free(s: Statement) -> bool
    decreases s, 1int,
{
    match s {
        Statement::Await(_) => false,
        Statement::Abort(_) => false,
        Statement::AbortAll(_) => false,
        Statement::Exit => true,
        Statement::Comment => true,
        Statement::Start(_) => false,
        Statement::IfElse(ie) => if_else_job_free(ie),
        Statement::ForLoop(fl) => {
            &&& fl.over is Ident || fl.over is Value
            &&& ({
                proof {
                    assert(decreases_to!(fl.code => fl.code@));
                }
                stmts_job_free(fl.code@)
            })
        },
        Statement::Assignment(a) => match a.value {
            AssignmentType::Append(d) => d is Value,
            AssignmentType::Assign(d) => d is Value,
        },
        Statement::Print(_) => true,
    }
}

/// A statement sequence free of job work.
pub open spec fn stmts_job_free(ss: Seq<Statement>) -> bool
    decreases ss, 0int,
{
    if ss.len() == 0 {
        true
    } else {
        stmt_job_free(ss[0]) && stmts_job_free(ss.drop_first())
    }
}

/// An if/else chain free of job work: its condition is a bare identifier and
/// every branch is free of job work.
pub open spec fn if_else_job_free(ie: IfElseStatement) -> bool
    decreases ie, 1int,
{
    &&& ie.if_statement.condition is Ident
    &&& ({
        proof {
            assert(decreases_to!(ie.if_statement.code => ie.if_statement.code@));
        }
        stmts_job_free(ie.if_statement.code@)
    })
    &&& match ie.else_statement {
        None => true,
        Some(els) => match els {
            ElseStatement::Code(c) => {
                proof {
                    assert(decreases_to!(c => c@));
                }
                stmts_job_free(c@)
            },
            ElseStatement::IfElse(b) => if_else_job_free(*b),
        },
    }
}

/// Every unsigned instruction argument indexes into a pool of `n` entries.
pub open spec fn pool_refs_valid(code: Seq<Instruction>, n: int) -> bool {
    forall|k: int|
        0 <= k < code.len() && (#[trigger] code[k]).arg is Unsigned ==> code[k].arg->Unsigned_0
            < n
}

/// What every lowering step keeps: a distinct pool stays distinct and only
/// grows, already emitted code is never touched, every emitted unsigned
/// argument stays a valid pool index, and — where the lowered construct is
/// free of job work — no emitted instruction involves the controller.
pub open spec fn lower_invariant(m: CModel, m1: CModel, job_free: bool) -> bool {
    &&& pool_distinct(m.pool) ==> pool_distinct(m1.pool)
    &&& m1.pool.len() >= m.pool.len()
    &&& m1.code.len() >= m.code.len()
    &&& m1.code.subrange(0, m.code.len() as int) == m.code
    &&& pool_refs_valid(m.code, m.pool.len() as int) ==> pool_refs_valid(
        m1.code,
        m1.pool.len() as int,
    )
    &&& job_free ==> forall|k: int|
        m.code.len() <= k < m1.code.len() ==> !crate::machine::opcode::job_opcode(
            (#[trigger] m1.code[k]).opcode,
        )
}

/// [`lower_invariant`] composes.
proof fn lemma_invariant_trans(m: CModel, m1: CModel, m2: CModel, job_free: bool)
    requires
        lower_invariant(m, m1, job_free),
        lower_invariant(m1, m2, job_free),
    ensures
        lower_invariant(m, m2, job_free),
{
    assert(m2.code.subrange(0, m.code.len() as int) =~= m.code) by {
        assert forall|k: int| 0 <= k < m.code.len() implies m2.code.subrange(
            0,
            m.code.len() as int,
        )[k] == m.code[k] by {
            assert(m2.code.subrange(0, m1.code.len() as int)[k] == m2.code[k]);
            assert(m1.code.subrange(0, m.code.len() as int)[k] == m1.code[k]);
        }
    }
    if job_free {
        assert forall|k: int|
            m.code.len() <= k < m2.code.len() implies !crate::machine::opcode::job_opcode(
            (#[trigger] m2.code[k]).opcode,
        ) by {
            if k < m1.code.len() {
                assert(m2.code.subrange(0, m1.code.len() as int)[k] == m2.code[k]);
                assert(m2.code[k] == m1.code[k]);
            }
        }
    }
}

/// [`lower_emit`] keeps the invariant when the emitted opcode involves no
/// job work (or the construct is not job free) and any unsigned argument
/// indexes into the pool.
proof fn lemma_emit_invariant(m: CModel, opcode: OpCode, arg: InstructionArg, job_free: bool)
    requires
        job_free ==> !crate::machine::opcode::job_opcode(opcode),
        arg is Unsigned ==> arg->Unsigned_0 < m.pool.len(),
    ensures
        lower_invariant(m, lower_emit(m, opcode, arg), job_free),
{
    let m1 = lower_emit(m, opcode, arg);
    assert(m1.code.subrange(0, m.code.len() as int) =~= m.code);
    if pool_refs_valid(m.code, m.pool.len() as int) {
        assert forall|k: int|
            0 <= k < m1.code.len() && (#[trigger] m1.code[k]).arg is Unsigned implies m1.code[
            k
        ].arg->Unsigned_0 < m1.pool.len() as int by {
            if k < m.code.len() {
                assert(m1.code[k] == m.code[k]);
            }
        }
    }
}

/// Interning keeps the pool distinct, never touches the code, and lands the
/// value at the returned index.
proof fn lemma_intern_invariant(m: CModel, v: ValueModel)
    ensures
        match lower_intern(m, v) {
            Ok((m1, idx)) => {
                &&& pool_distinct(m.pool) ==> pool_distinct(m1.pool)
                &&& m1.code == m.code
                &&& idx < m1.pool.len()
                &&& m1.pool[idx as int] == v
                &&& m1.pool.subrange(0, m.pool.len() as int) == m.pool
            },
            Err(_) => true,
        },
{
    crate::machine::vm_state::lemma_pool_index(m.pool, v);
    match lower_intern(m, v) {
        Ok((m1, idx)) => {
            let f = pool_index(m.pool, v);
            if f == -1 {
                assert(m1.pool.subrange(0, m.pool.len() as int) =~= m.pool);
                if pool_distinct(m.pool) {
                    assert forall|i: int, j: int|
                        0 <= i < j < m1.pool.len() implies #[trigger] m1.pool[i]
                        != #[trigger] m1.pool[j] by {
                        if j == m.pool.len() as int {
                            assert(m1.pool[i] == m.pool[i]);
                        }
                    }
                }
            } else {
                assert(m1.pool.subrange(0, m.pool.len() as int) =~= m.pool);
            }
        },
        Err(_) => {},
    }
}

/// Interning the same constant twice yields the same pool index, and the
/// second interning allocates nothing: the dedup behind constant pooling.
pub proof fn lemma_intern_dedup(m: CModel, v: ValueModel)
    ensures
        match lower_intern(m, v) {
            Ok((m1, idx)) => lower_intern(m1, v) == Ok::<(CModel, u16), CompileError>((m1, idx)),
            Err(_) => true,
        },
{
    crate::machine::vm_state::lemma_pool_index(m.pool, v);
    match lower_intern(m, v) {
        Ok((m1, idx)) => {
            crate::machine::vm_state::lemma_pool_index(m1.pool, v);
            let f = pool_index(m.pool, v);
            let f1 = pool_index(m1.pool, v);
            if f == -1 {
                assert(m1.pool[m.pool.len() as int] == v);
                assert(f1 != -1);
                if f1 < m.pool.len() as int {
                    assert(m1.pool[f1] == m.pool[f1]);
                    assert(pool_index(m.pool, v) != -1);
                }
                assert(f1 == m.pool.len() as int);
            } else {
                assert(f1 != -1);
                if f1 < f {
                    assert(m1.pool[f1] != v);
                }
                if f1 > f {
                    assert(m1.pool[f] != v);
                }
            }
        },
        Err(_) => {},
    }
}


/// [`lower_const`] keeps the invariant.
proof fn lemma_const_inv(m: CModel, v: ValueModel)
    ensures
        match lower_const(m, v) {
            Ok(m1) => lower_invariant(m, m1, true),
            Err(_) => true,
        },
{
    lemma_intern_invariant(m, v);
    match lower_intern(m, v) {
        Ok((mi, idx)) => {
            lemma_emit_invariant(mi, OpCode::PushValueU16, InstructionArg::Unsigned(idx), true);
            assert(lower_invariant(m, mi, true)) by {
                assert(mi.code.subrange(0, m.code.len() as int) =~= m.code);
            }
            lemma_invariant_trans(
                m,
                mi,
                lower_emit(mi, OpCode::PushValueU16, InstructionArg::Unsigned(idx)),
                true,
            );
        },
        Err(_) => {},
    }
}

/// [`lower_ident`] keeps the invariant.
proof fn lemma_ident_inv(ident: Seq<char>, m: CModel)
    ensures
        match lower_ident(ident, m) {
            Ok(m1) => lower_invariant(m, m1, true),
            Err(_) => true,
        },
{
    lemma_const_inv(m, ValueModel::String(ident));
    match lower_const(m, ValueModel::String(ident)) {
        Ok(mc) => {
            lemma_emit_invariant(mc, OpCode::GetVariable, InstructionArg::Empty, true);
            lemma_invariant_trans(
                m,
                mc,
                lower_emit(mc, OpCode::GetVariable, InstructionArg::Empty),
                true,
            );
        },
        Err(_) => {},
    }
}

/// [`lower_ident_of_type`] keeps the invariant.
proof fn lemma_ident_of_type_inv(ident: Seq<char>, t: VmValueType, m: CModel)
    ensures
        match lower_ident_of_type(ident, t, m) {
            Ok(m1) => lower_invariant(m, m1, true),
            Err(_) => true,
        },
{
    lemma_const_inv(m, ValueModel::String(ident));
    match lower_const(m, ValueModel::String(ident)) {
        Ok(mc) => {
            lemma_emit_invariant(mc, OpCode::GetVariableOfType, InstructionArg::Type(t), true);
            lemma_invariant_trans(
                m,
                mc,
                lower_emit(mc, OpCode::GetVariableOfType, InstructionArg::Type(t)),
                true,
            );
        },
        Err(_) => {},
    }
}

/// [`lower_range`] keeps the invariant.
proof fn lemma_range_inv(from: int, to: int, m: CModel)
    ensures
        match lower_range(from, to, m) {
            Ok(m1) => lower_invariant(m, m1, true),
            Err(_) => true,
        },
    decreases to - from,
{
    if from >= to {
        assert(m.code.subrange(0, m.code.len() as int) =~= m.code);
    } else if -(NUMBER_INT_LIMIT as int) < from < NUMBER_INT_LIMIT {
        lemma_const_inv(m, ValueModel::Number(signed_number_bits_of(from)));
        match lower_const(m, ValueModel::Number(signed_number_bits_of(from))) {
            Ok(mc) => {
                let me = lower_emit(mc, OpCode::AppendArrayPush, InstructionArg::Empty);
                lemma_emit_invariant(mc, OpCode::AppendArrayPush, InstructionArg::Empty, true);
                lemma_invariant_trans(m, mc, me, true);
                lemma_range_inv(from + 1, to, me);
                match lower_range(from + 1, to, me) {
                    Ok(m1) => {
                        lemma_invariant_trans(m, me, m1, true);
                    },
                    Err(_) => {},
                }
            },
            Err(_) => {},
        }
    }
}

/// [`lower_value`] keeps the invariant.
proof fn lemma_value_inv(val: Value, m: CModel)
    ensures
        match lower_value(val, m) {
            Ok(m1) => lower_invariant(m, m1, true),
            Err(_) => true,
        },
    decreases val, 1int,
{
    match val {
        Value::NumericRange(nr) => {
            let me = lower_emit(m, OpCode::PushEmptyArray, InstructionArg::Empty);
            lemma_emit_invariant(m, OpCode::PushEmptyArray, InstructionArg::Empty, true);
            lemma_range_inv(nr.from as int, nr.to as int, me);
            match lower_range(nr.from as int, nr.to as int, me) {
                Ok(m1) => {
                    lemma_invariant_trans(m, me, m1, true);
                },
                Err(_) => {},
            }
        },
        Value::Number(bits) => {
            lemma_const_inv(m, ValueModel::Number(bits));
        },
        Value::Null => {
            lemma_emit_invariant(m, OpCode::PushNull, InstructionArg::Empty, true);
        },
        Value::String(st) => {
            lemma_const_inv(m, ValueModel::String(st@));
        },
        Value::Boolean(b) => {
            if b {
                lemma_emit_invariant(m, OpCode::PushTrue, InstructionArg::Empty, true);
            } else {
                lemma_emit_invariant(m, OpCode::PushFalse, InstructionArg::Empty, true);
            }
        },
        Value::Object(props) => {
            assert(decreases_to!(props => props@));
            let me = lower_emit(m, OpCode::PushEmptyObject, InstructionArg::Empty);
            lemma_emit_invariant(m, OpCode::PushEmptyObject, InstructionArg::Empty, true);
            lemma_props_inv(props@, me);
            match lower_props(props@, me) {
                Ok(m1) => {
                    lemma_invariant_trans(m, me, m1, true);
                },
                Err(_) => {},
            }
        },
        Value::Array(elements) => {
            assert(decreases_to!(elements => elements@));
            let me = lower_emit(m, OpCode::PushEmptyArray, InstructionArg::Empty);
            lemma_emit_invariant(m, OpCode::PushEmptyArray, InstructionArg::Empty, true);
            lemma_elements_inv(elements@, me);
            match lower_elements(elements@, me) {
                Ok(m1) => {
                    lemma_invariant_trans(m, me, m1, true);
                },
                Err(_) => {},
            }
        },
    }
}

/// [`lower_elements`] keeps the invariant.
proof fn lemma_elements_inv(vals: Seq<Value>, m: CModel)
    ensures
        match lower_elements(vals, m) {
            Ok(m1) => lower_invariant(m, m1, true),
            Err(_) => true,
        },
    decreases vals, 0int,
{
    if vals.len() == 0 {
        assert(m.code.subrange(0, m.code.len() as int) =~= m.code);
    } else {
        lemma_value_inv(vals[0], m);
        match lower_value(vals[0], m) {
            Ok(mv) => {
                let me = lower_emit(mv, OpCode::AppendArrayPush, InstructionArg::Empty);
                lemma_emit_invariant(mv, OpCode::AppendArrayPush, InstructionArg::Empty, true);
                lemma_invariant_trans(m, mv, me, true);
                lemma_elements_inv(vals.drop_first(), me);
                match lower_elements(vals.drop_first(), me) {
                    Ok(m1) => {
                        lemma_invariant_trans(m, me, m1, true);
                    },
                    Err(_) => {},
                }
            },
            Err(_) => {},
        }
    }
}

/// [`lower_props`] keeps the invariant.
proof fn lemma_props_inv(props: Seq<Property>, m: CModel)
    ensures
        match lower_props(props, m) {
            Ok(m1) => lower_invariant(m, m1, true),
            Err(_) => true,
        },
    decreases props, 0int,
{
    if props.len() == 0 {
        assert(m.code.subrange(0, m.code.len() as int) =~= m.code);
    } else {
        lemma_const_inv(m, ValueModel::String(props[0].key@));
        match lower_const(m, ValueModel::String(props[0].key@)) {
            Ok(mk) => {
                lemma_value_inv(props[0].value, mk);
                match lower_value(props[0].value, mk) {
                    Ok(mv) => {
                        lemma_invariant_trans(m, mk, mv, true);
                        let me = lower_emit(mv, OpCode::AppendPropertyPush, InstructionArg::Empty);
                        lemma_emit_invariant(
                            mv,
                            OpCode::AppendPropertyPush,
                            InstructionArg::Empty,
                            true,
                        );
                        lemma_invariant_trans(m, mv, me, true);
                        lemma_props_inv(props.drop_first(), me);
                        match lower_props(props.drop_first(), me) {
                            Ok(m1) => {
                                lemma_invariant_trans(m, me, m1, true);
                            },
                            Err(_) => {},
                        }
                    },
                    Err(_) => {},
                }
            },
            Err(_) => {},
        }
    }
}


/// [`lower_call`] keeps the pool and code invariant (its code involves the
/// controller, so no job-free claim is made).
proof fn lemma_call_inv(c: Call, m: CModel)
    ensures
        match lower_call(c, m) {
            Ok(m1) => lower_invariant(m, m1, false),
            Err(_) => true,
        },
{
    lemma_const_inv(m, ValueModel::String(c.ident@));
    match lower_const(m, ValueModel::String(c.ident@)) {
        Ok(mn) => {
            match c.value {
                Some(cv) => {
                    match cv {
                        CallValue::Ident(ident) => {
                            lemma_ident_inv(ident@, mn);
                        },
                        CallValue::Value(value) => {
                            lemma_value_inv(value, mn);
                        },
                    }
                    match (match cv {
                        CallValue::Ident(ident) => lower_ident(ident@, mn),
                        CallValue::Value(value) => lower_value(value, mn),
                    }) {
                        Ok(mv) => {
                            lemma_invariant_trans(m, mn, mv, false);
                            lemma_emit_invariant(mv, OpCode::Call, InstructionArg::Empty, false);
                            lemma_invariant_trans(
                                m,
                                mv,
                                lower_emit(mv, OpCode::Call, InstructionArg::Empty),
                                false,
                            );
                        },
                        Err(_) => {},
                    }
                },
                None => {
                    lemma_emit_invariant(mn, OpCode::CallNoArg, InstructionArg::Empty, false);
                    lemma_invariant_trans(
                        m,
                        mn,
                        lower_emit(mn, OpCode::CallNoArg, InstructionArg::Empty),
                        false,
                    );
                },
            }
        },
        Err(_) => {},
    }
}

/// [`lower_await_call_or_ident`] keeps the pool and code invariant.
proof fn lemma_acoi_inv(a: AwaitCallOrIdentProduction, m: CModel)
    ensures
        match lower_await_call_or_ident(a, m) {
            Ok(m1) => lower_invariant(m, m1, false),
            Err(_) => true,
        },
{
    match a {
        AwaitCallOrIdentProduction::Call(c) => {
            lemma_call_inv(c, m);
        },
        AwaitCallOrIdentProduction::Ident(ident) => {
            lemma_ident_of_type_inv(ident@, VmValueType::Job, m);
        },
    }
    match (match a {
        AwaitCallOrIdentProduction::Call(c) => lower_call(c, m),
        AwaitCallOrIdentProduction::Ident(ident) => lower_ident_of_type(
            ident@,
            VmValueType::Job,
            m,
        ),
    }) {
        Ok(mi) => {
            lemma_emit_invariant(mi, OpCode::Await, InstructionArg::Empty, false);
            lemma_invariant_trans(m, mi, lower_emit(mi, OpCode::Await, InstructionArg::Empty), false);
        },
        Err(_) => {},
    }
}

/// [`lower_assign_data`] keeps the invariant; job free when the data is a
/// plain value.
proof fn lemma_assign_data_inv(d: AssignStatementData, m: CModel)
    ensures
        match lower_assign_data(d, m) {
            Ok(m1) => lower_invariant(m, m1, d is Value),
            Err(_) => true,
        },
{
    match d {
        AssignStatementData::Value(value) => {
            lemma_value_inv(value, m);
        },
        AssignStatementData::Await(a) => {
            lemma_acoi_inv(a, m);
        },
        AssignStatementData::Start(c) => {
            lemma_call_inv(c, m);
        },
    }
}

/// [`lower_assign`] keeps the invariant.
proof fn lemma_assign_inv(ident: Seq<char>, d: AssignStatementData, m: CModel)
    ensures
        match lower_assign(ident, d, m) {
            Ok(m1) => lower_invariant(m, m1, d is Value),
            Err(_) => true,
        },
{
    let jf = d is Value;
    lemma_intern_invariant(m, ValueModel::String(ident));
    match lower_intern(m, ValueModel::String(ident)) {
        Ok((mi, idx)) => {
            assert(lower_invariant(m, mi, jf)) by {
                assert(mi.code.subrange(0, m.code.len() as int) =~= m.code);
            }
            lemma_assign_data_inv(d, mi);
            match lower_assign_data(d, mi) {
                Ok(md) => {
                    lemma_invariant_trans(m, mi, md, jf);
                    let m4 = lower_emit(md, OpCode::PushValueU16, InstructionArg::Unsigned(idx));
                    lemma_emit_invariant(md, OpCode::PushValueU16, InstructionArg::Unsigned(idx), jf);
                    lemma_invariant_trans(m, md, m4, jf);
                    lemma_emit_invariant(m4, OpCode::Assign, InstructionArg::Empty, jf);
                    lemma_invariant_trans(
                        m,
                        m4,
                        lower_emit(m4, OpCode::Assign, InstructionArg::Empty),
                        jf,
                    );
                },
                Err(_) => {},
            }
        },
        Err(_) => {},
    }
}

/// [`lower_append`] keeps the invariant.
proof fn lemma_append_inv(ident: Seq<char>, d: AssignStatementData, m: CModel)
    ensures
        match lower_append(ident, d, m) {
            Ok(m1) => lower_invariant(m, m1, d is Value),
            Err(_) => true,
        },
{
    let jf = d is Value;
    lemma_intern_invariant(m, ValueModel::String(ident));
    match lower_intern(m, ValueModel::String(ident)) {
        Ok((mi, idx)) => {
            assert(lower_invariant(m, mi, jf)) by {
                assert(mi.code.subrange(0, m.code.len() as int) =~= m.code);
            }
            let m2 = lower_emit(mi, OpCode::PushValueU16, InstructionArg::Unsigned(idx));
            lemma_emit_invariant(mi, OpCode::PushValueU16, InstructionArg::Unsigned(idx), jf);
            lemma_invariant_trans(m, mi, m2, jf);
            let m3 = lower_emit(
                m2,
                OpCode::GetVariableOfType,
                InstructionArg::Type(VmValueType::Array),
            );
            lemma_emit_invariant(
                m2,
                OpCode::GetVariableOfType,
                InstructionArg::Type(VmValueType::Array),
                jf,
            );
            lemma_invariant_trans(m, m2, m3, jf);
            lemma_assign_data_inv(d, m3);
            match lower_assign_data(d, m3) {
                Ok(md) => {
                    lemma_invariant_trans(m, m3, md, jf);
                    let m5 = lower_emit(md, OpCode::AppendArrayPush, InstructionArg::Empty);
                    lemma_emit_invariant(md, OpCode::AppendArrayPush, InstructionArg::Empty, jf);
                    lemma_invariant_trans(m, md, m5, jf);
                    let m6 = lower_emit(m5, OpCode::PushValueU16, InstructionArg::Unsigned(idx));
                    lemma_emit_invariant(m5, OpCode::PushValueU16, InstructionArg::Unsigned(idx), jf);
                    lemma_invariant_trans(m, m5, m6, jf);
                    lemma_emit_invariant(m6, OpCode::Assign, InstructionArg::Empty, jf);
                    lemma_invariant_trans(
                        m,
                        m6,
                        lower_emit(m6, OpCode::Assign, InstructionArg::Empty),
                        jf,
                    );
                },
                Err(_) => {},
            }
        },
        Err(_) => {},
    }
}


/// Backpatching an instruction inside the newly emitted region keeps the
/// invariant from the state the region was emitted onto.
proof fn lemma_update_invariant(m: CModel, mb: CModel, pos: int, inst: Instruction, jf: bool)
    requires
        lower_invariant(m, mb, jf),
        m.code.len() <= pos < mb.code.len(),
        jf ==> !crate::machine::opcode::job_opcode(inst.opcode),
        !(inst.arg is Unsigned),
    ensures
        lower_invariant(m, (CModel { pool: mb.pool, code: mb.code.update(pos, inst) }), jf),
{
    let mf = CModel { pool: mb.pool, code: mb.code.update(pos, inst) };
    assert(mf.code.subrange(0, m.code.len() as int) =~= m.code) by {
        assert forall|k: int| 0 <= k < m.code.len() implies mf.code.subrange(
            0,
            m.code.len() as int,
        )[k] == m.code[k] by {
            assert(mb.code.subrange(0, m.code.len() as int)[k] == mb.code[k]);
        }
    }
    if pool_refs_valid(m.code, m.pool.len() as int) {
        assert forall|k: int|
            0 <= k < mf.code.len() && (#[trigger] mf.code[k]).arg is Unsigned implies mf.code[
            k
        ].arg->Unsigned_0 < mf.pool.len() as int by {
            if k != pos {
                assert(mf.code[k] == mb.code[k]);
            }
        }
    }
}

/// [`lower_if_else`] keeps the invariant.
proof fn lemma_if_else_inv(ie: IfElseStatement, m: CModel)
    ensures
        match lower_if_else(ie, m) {
            Ok(m1) => lower_invariant(m, m1, if_else_job_free(ie)),
            Err(_) => true,
        },
    decreases ie, 1int,
{
    let jf = if_else_job_free(ie);
    match ie.if_statement.condition {
        IfStatementCondition::Await(a) => {
            lemma_acoi_inv(a, m);
        },
        IfStatementCondition::Ident(ident) => {
            lemma_ident_inv(ident@, m);
        },
    }
    match lower_condition(ie.if_statement.condition, m) {
        Ok(m1) => {
            assert(lower_invariant(m, m1, jf));
            let jpos = m1.code.len() as int;
            let m2 = lower_emit(m1, OpCode::JumpIfFalse, InstructionArg::Signed(0));
            lemma_emit_invariant(m1, OpCode::JumpIfFalse, InstructionArg::Signed(0), jf);
            lemma_invariant_trans(m, m1, m2, jf);
            assert(decreases_to!(ie.if_statement.code => ie.if_statement.code@));
            lemma_statements_inv(ie.if_statement.code@, m2);
            match lower_statements(ie.if_statement.code@, m2) {
                Ok(m3) => {
                    lemma_invariant_trans(m, m2, m3, jf);
                    match ie.else_statement {
                        None => {
                            let off = m3.code.len() - jpos - 1;
                            if off <= i16::MAX {
                                let mf = CModel {
                                    pool: m3.pool,
                                    code: m3.code.update(
                                        jpos,
                                        (Instruction {
                                            opcode: OpCode::JumpIfFalse,
                                            arg: InstructionArg::Signed(off as i16),
                                        }),
                                    ),
                                };
                                lemma_update_invariant(
                                    m,
                                    m3,
                                    jpos,
                                    (Instruction {
                                        opcode: OpCode::JumpIfFalse,
                                        arg: InstructionArg::Signed(off as i16),
                                    }),
                                    jf,
                                );
                            }
                        },
                        Some(els) => {
                            let spos = m3.code.len() as int;
                            let m4 = lower_emit(m3, OpCode::Jump, InstructionArg::Signed(0));
                            lemma_emit_invariant(m3, OpCode::Jump, InstructionArg::Signed(0), jf);
                            lemma_invariant_trans(m, m3, m4, jf);
                            let off1 = m4.code.len() - jpos - 1;
                            if off1 <= i16::MAX {
                                let m5 = CModel {
                                    pool: m4.pool,
                                    code: m4.code.update(
                                        jpos,
                                        (Instruction {
                                            opcode: OpCode::JumpIfFalse,
                                            arg: InstructionArg::Signed(off1 as i16),
                                        }),
                                    ),
                                };
                                lemma_update_invariant(
                                    m,
                                    m4,
                                    jpos,
                                    (Instruction {
                                        opcode: OpCode::JumpIfFalse,
                                        arg: InstructionArg::Signed(off1 as i16),
                                    }),
                                    jf,
                                );
                                match els {
                                    ElseStatement::Code(c) => {
                                        assert(decreases_to!(c => c@));
                                        lemma_statements_inv(c@, m5);
                                    },
                                    ElseStatement::IfElse(b) => {
                                        lemma_if_else_inv(*b, m5);
                                    },
                                }
                                match (match els {
                                    ElseStatement::Code(c) => lower_statements(c@, m5),
                                    ElseStatement::IfElse(b) => lower_if_else(*b, m5),
                                }) {
                                    Ok(m6) => {
                                        lemma_invariant_trans(m, m5, m6, jf);
                                        let off2 = m6.code.len() - spos - 1;
                                        if off2 <= i16::MAX {
                                            let mf = CModel {
                                                pool: m6.pool,
                                                code: m6.code.update(
                                                    spos,
                                                    (Instruction {
                                                        opcode: OpCode::Jump,
                                                        arg: InstructionArg::Signed(off2 as i16),
                                                    }),
                                                ),
                                            };
                                            lemma_update_invariant(
                                                m,
                                                m6,
                                                spos,
                                                (Instruction {
                                                    opcode: OpCode::Jump,
                                                    arg: InstructionArg::Signed(off2 as i16),
                                                }),
                                                jf,
                                            );
                                        }
                                    },
                                    Err(_) => {},
                                }
                            }
                        },
                    }
                },
                Err(_) => {},
            }
        },
        Err(_) => {},
    }
}

/// [`lower_for_loop`] keeps the invariant.
proof fn lemma_for_loop_inv(fl: ForLoopStatement, m: CModel)
    ensures
        match lower_for_loop(fl, m) {
            Ok(m1) => lower_invariant(
                m,
                m1,
                (fl.over is Ident || fl.over is Value) && stmts_job_free(fl.code@),
            ),
            Err(_) => true,
        },
    decreases fl, 1int,
{
    let jf = (fl.over is Ident || fl.over is Value) && stmts_job_free(fl.code@);
    match fl.over {
        ForLoopInstruction::Ident(ident) => {
            lemma_ident_inv(ident@, m);
        },
        ForLoopInstruction::Await(a) => {
            lemma_acoi_inv(a, m);
        },
        ForLoopInstruction::Value(value) => {
            lemma_value_inv(value, m);
        },
    }
    match lower_for_source(fl.over, m) {
        Ok(m1) => {
            assert(lower_invariant(m, m1, jf));
            lemma_const_inv(m1, ValueModel::Number(0));
            match lower_const(m1, ValueModel::Number(0)) {
                Ok(m2) => {
                    lemma_invariant_trans(m, m1, m2, jf);
                    let jpos = m2.code.len() as int;
                    let m3 = lower_emit(m2, OpCode::JumpIterate, InstructionArg::Signed(0));
                    lemma_emit_invariant(m2, OpCode::JumpIterate, InstructionArg::Signed(0), jf);
                    lemma_invariant_trans(m, m2, m3, jf);
                    lemma_const_inv(m3, ValueModel::String(fl.ident@));
                    match lower_const(m3, ValueModel::String(fl.ident@)) {
                        Ok(m4) => {
                            lemma_invariant_trans(m, m3, m4, jf);
                            let m5 = lower_emit(m4, OpCode::Assign, InstructionArg::Empty);
                            lemma_emit_invariant(m4, OpCode::Assign, InstructionArg::Empty, jf);
                            lemma_invariant_trans(m, m4, m5, jf);
                            assert(decreases_to!(fl.code => fl.code@));
                            lemma_statements_inv(fl.code@, m5);
                            match lower_statements(fl.code@, m5) {
                                Ok(m6) => {
                                    lemma_invariant_trans(m, m5, m6, jf);
                                    let bpos = m6.code.len() as int;
                                    let back = jpos - (bpos + 1);
                                    if back >= i16::MIN {
                                        let m7 = lower_emit(
                                            m6,
                                            OpCode::Jump,
                                            InstructionArg::Signed(back as i16),
                                        );
                                        lemma_emit_invariant(
                                            m6,
                                            OpCode::Jump,
                                            InstructionArg::Signed(back as i16),
                                            jf,
                                        );
                                        lemma_invariant_trans(m, m6, m7, jf);
                                        let xoff = m7.code.len() - jpos - 1;
                                        if xoff <= i16::MAX {
                                            let mf = CModel {
                                                pool: m7.pool,
                                                code: m7.code.update(
                                                    jpos,
                                                    (Instruction {
                                                        opcode: OpCode::JumpIterate,
                                                        arg: InstructionArg::Signed(xoff as i16),
                                                    }),
                                                ),
                                            };
                                            lemma_update_invariant(
                                                m,
                                                m7,
                                                jpos,
                                                (Instruction {
                                                    opcode: OpCode::JumpIterate,
                                                    arg: InstructionArg::Signed(xoff as i16),
                                                }),
                                                jf,
                                            );
                                        }
                                    }
                                },
                                Err(_) => {},
                            }
                        },
                        Err(_) => {},
                    }
                },
                Err(_) => {},
            }
        },
        Err(_) => {},
    }
}

/// [`lower_statement`] keeps the invariant.
proof fn lemma_statement_inv(st: Statement, m: CModel)
    ensures
        match lower_statement(st, m) {
            Ok(m1) => lower_invariant(m, m1, stmt_job_free(st)),
            Err(_) => true,
        },
    decreases st, 1int,
{
    let jf = stmt_job_free(st);
    match st {
        Statement::Await(aw) => {
            match aw {
                AwaitStatement::AwaitAny(ident) => {
                    lemma_ident_of_type_inv(ident@, VmValueType::ArrayOfJobs, m);
                    match lower_ident_of_type(ident@, VmValueType::ArrayOfJobs, m) {
                        Ok(mi) => {
                            lemma_emit_invariant(mi, OpCode::AwaitAny, InstructionArg::Empty, false);
                            lemma_invariant_trans(
                                m,
                                mi,
                                lower_emit(mi, OpCode::AwaitAny, InstructionArg::Empty),
                                false,
                            );
                        },
                        Err(_) => {},
                    }
                },
                AwaitStatement::AwaitAll(ident) => {
                    lemma_ident_of_type_inv(ident@, VmValueType::ArrayOfJobs, m);
                    match lower_ident_of_type(ident@, VmValueType::ArrayOfJobs, m) {
                        Ok(mi) => {
                            lemma_emit_invariant(mi, OpCode::AwaitAll, InstructionArg::Empty, false);
                            lemma_invariant_trans(
                                m,
                                mi,
                                lower_emit(mi, OpCode::AwaitAll, InstructionArg::Empty),
                                false,
                            );
                        },
                        Err(_) => {},
                    }
                },
                AwaitStatement::AwaitCallOrIdent(a) => {
                    lemma_acoi_inv(a, m);
                },
            }
        },
        Statement::Abort(ident) => {
            lemma_ident_of_type_inv(ident@, VmValueType::Job, m);
            match lower_ident_of_type(ident@, VmValueType::Job, m) {
                Ok(mi) => {
                    lemma_emit_invariant(mi, OpCode::Abort, InstructionArg::Empty, false);
                    lemma_invariant_trans(
                        m,
                        mi,
                        lower_emit(mi, OpCode::Abort, InstructionArg::Empty),
                        false,
                    );
                },
                Err(_) => {},
            }
        },
        Statement::AbortAll(ident) => {
            lemma_ident_of_type_inv(ident@, VmValueType::ArrayOfJobs, m);
            match lower_ident_of_type(ident@, VmValueType::ArrayOfJobs, m) {
                Ok(mi) => {
                    lemma_emit_invariant(mi, OpCode::AbortAll, InstructionArg::Empty, false);
                    lemma_invariant_trans(
                        m,
                        mi,
                        lower_emit(mi, OpCode::AbortAll, InstructionArg::Empty),
                        false,
                    );
                },
                Err(_) => {},
            }
        },
        Statement::Exit => {
            let m1 = lower_emit(m, OpCode::PushNull, InstructionArg::Empty);
            lemma_emit_invariant(m, OpCode::PushNull, InstructionArg::Empty, jf);
            lemma_emit_invariant(m1, OpCode::Exit, InstructionArg::Empty, jf);
            lemma_invariant_trans(m, m1, lower_emit(m1, OpCode::Exit, InstructionArg::Empty), jf);
        },
        Statement::Comment => {
            assert(m.code.subrange(0, m.code.len() as int) =~= m.code);
        },
        Statement::Start(c) => {
            lemma_call_inv(c, m);
            match lower_call(c, m) {
                Ok(mc) => {
                    lemma_emit_invariant(mc, OpCode::Pop, InstructionArg::Empty, false);
                    lemma_invariant_trans(
                        m,
                        mc,
                        lower_emit(mc, OpCode::Pop, InstructionArg::Empty),
                        false,
                    );
                },
                Err(_) => {},
            }
        },
        Statement::IfElse(ie) => {
            lemma_if_else_inv(ie, m);
        },
        Statement::ForLoop(fl) => {
            lemma_for_loop_inv(fl, m);
        },
        Statement::Assignment(a) => {
            match a.value {
                AssignmentType::Append(d) => {
                    lemma_append_inv(a.ident@, d, m);
                },
                AssignmentType::Assign(d) => {
                    lemma_assign_inv(a.ident@, d, m);
                },
            }
        },
        Statement::Print(ident) => {
            lemma_const_inv(m, ValueModel::String(ident@));
            match lower_const(m, ValueModel::String(ident@)) {
                Ok(m1) => {
                    let m2 = lower_emit(m1, OpCode::GetVariable, InstructionArg::Empty);
                    lemma_emit_invariant(m1, OpCode::GetVariable, InstructionArg::Empty, jf);
                    lemma_invariant_trans(m, m1, m2, jf);
                    lemma_emit_invariant(m2, OpCode::PrintToConsole, InstructionArg::Empty, jf);
                    lemma_invariant_trans(
                        m,
                        m2,
                        lower_emit(m2, OpCode::PrintToConsole, InstructionArg::Empty),
                        jf,
                    );
                },
                Err(_) => {},
            }
        },
    }
}

/// [`lower_statements`] keeps the invariant.
proof fn lemma_statements_inv(ss: Seq<Statement>, m: CModel)
    ensures
        match lower_statements(ss, m) {
            Ok(m1) => lower_invariant(m, m1, stmts_job_free(ss)),
            Err(_) => true,
        },
    decreases ss, 0int,
{
    let jf = stmts_job_free(ss);
    if ss.len() == 0 {
        assert(m.code.subrange(0, m.code.len() as int) =~= m.code);
    } else {
        lemma_statement_inv(ss[0], m);
        match lower_statement(ss[0], m) {
            Ok(m1) => {
                lemma_statements_inv(ss.drop_first(), m1);
                match lower_statements(ss.drop_first(), m1) {
                    Ok(m2) => {
                        if jf {
                            lemma_invariant_trans(m, m1, m2, true);
                        } else {
                            lemma_invariant_trans(m, m1, m2, false);
                        }
                    },
                    Err(_) => {},
                }
            },
            Err(_) => {},
        }
    }
}

/// Constant pooling deduplicates, every pool reference in a compiled file
/// is a valid pool index, and a program without job statements compiles to
/// code without job opcodes: the pool of a compiled file holds no two
/// structurally equal entries, every unsigned instruction argument indexes
/// into that pool, and where the file contains no start, await or abort
/// work, no instruction of the compiled file involves the controller.
pub proof fn lemma_file_invariants(file: X39File)
    ensures
        match lower_file(file) {
            Ok(m) => {
                &&& pool_distinct(m.pool)
                &&& pool_refs_valid(m.code, m.pool.len() as int)
                &&& stmts_job_free(file.statements@) ==> forall|k: int|
                    0 <= k < m.code.len() ==> !crate::machine::opcode::job_opcode(
                        (#[trigger] m.code[k]).opcode,
                    )
            },
            Err(_) => true,
        },
{
    let m0 = CModel { pool: Seq::empty(), code: Seq::empty() };
    lemma_statements_inv(file.statements@, m0);
}


/// Branch exclusivity of a compiled if/else: at the backpatched conditional
/// jump, a true condition falls through into the if body's first
/// instruction and a false condition lands on the else code's first
/// instruction, never touching the if body; the skip jump that ends the if
/// body lands right past the else code, so both branches meet at the same
/// pointer.
pub proof fn lemma_branch_exclusivity(
    ie: IfElseStatement,
    m: CModel,
    pool: Seq<ValueModel>,
    d: Seq<ValueModel>,
    v: Seq<PairModel>,
)
    requires
        lower_if_else(ie, m) is Ok,
        ie.else_statement is Some,
        !(ie.else_statement->Some_0 is IfElse),
        lower_if_else(ie, m)->Ok_0.code.len() <= usize::MAX,
    ensures
        ({
            let mf = lower_if_else(ie, m)->Ok_0;
            let m1 = lower_condition(ie.if_statement.condition, m)->Ok_0;
            let jpos = m1.code.len() as int;
            let m2 = lower_emit(m1, OpCode::JumpIfFalse, InstructionArg::Signed(0));
            let m3 = lower_statements(ie.if_statement.code@, m2)->Ok_0;
            let spos = m3.code.len() as int;
            &&& jpos < spos < mf.code.len()
            &&& step_core_spec(mf.code, pool, jpos, d.push(ValueModel::Boolean(true)), v)
                == (StepSpec { r: Ok(StepEventModel::Ran), ip: jpos + 1, data: d, vars: v })
            &&& step_core_spec(mf.code, pool, jpos, d.push(ValueModel::Boolean(false)), v)
                == (StepSpec { r: Ok(StepEventModel::Ran), ip: spos + 1, data: d, vars: v })
            &&& step_core_spec(mf.code, pool, spos, d, v) == (StepSpec {
                r: Ok(StepEventModel::Ran),
                ip: mf.code.len() as int,
                data: d,
                vars: v,
            })
        }),
{
    let mf = lower_if_else(ie, m)->Ok_0;
    let m1 = lower_condition(ie.if_statement.condition, m)->Ok_0;
    let jpos = m1.code.len() as int;
    let m2 = lower_emit(m1, OpCode::JumpIfFalse, InstructionArg::Signed(0));
    let m3 = lower_statements(ie.if_statement.code@, m2)->Ok_0;
    let spos = m3.code.len() as int;
    let m4 = lower_emit(m3, OpCode::Jump, InstructionArg::Signed(0));
    let off1 = m4.code.len() - jpos - 1;
    let m5 = CModel {
        pool: m4.pool,
        code: m4.code.update(
            jpos,
            (Instruction {
                opcode: OpCode::JumpIfFalse,
                arg: InstructionArg::Signed(off1 as i16),
            }),
        ),
    };
    let els = ie.else_statement->Some_0;
    let bcode = els->Code_0;
    let m6 = lower_statements(bcode@, m5)->Ok_0;
    let off2 = m6.code.len() - spos - 1;
    lemma_statements_inv(ie.if_statement.code@, m2);
    lemma_statements_inv(bcode@, m5);
    assert(mf.code[jpos] == (Instruction {
        opcode: OpCode::JumpIfFalse,
        arg: InstructionArg::Signed(off1 as i16),
    })) by {
        assert(m6.code.subrange(0, m5.code.len() as int)[jpos] == m6.code[jpos]);
    }
    assert(mf.code[spos] == (Instruction {
        opcode: OpCode::Jump,
        arg: InstructionArg::Signed(off2 as i16),
    }));
    assert(d.push(ValueModel::Boolean(true)).drop_last() =~= d);
    assert(d.push(ValueModel::Boolean(false)).drop_last() =~= d);
}

/// Jump targets of a compiled for loop: the backward jump at the end of the
/// loop body returns exactly to the iterate instruction, and the
/// backpatched iterate offset exits exactly past the backward jump, so a
/// finished loop leaves the stack depth it found.
pub proof fn lemma_loop_jump_targets(
    fl: ForLoopStatement,
    m: CModel,
    pool: Seq<ValueModel>,
    d: Seq<ValueModel>,
    v: Seq<PairModel>,
    coll: ValueModel,
    cursor_bits: u64,
)
    requires
        lower_for_loop(fl, m) is Ok,
        lower_for_loop(fl, m)->Ok_0.code.len() <= usize::MAX,
        coll is Array,
        crate::machine::number::number_index_of(cursor_bits) matches Some(c) && c
            >= coll->Array_0.len(),
    ensures
        ({
            let mf = lower_for_loop(fl, m)->Ok_0;
            let m1 = lower_for_source(fl.over, m)->Ok_0;
            let m2 = lower_const(m1, ValueModel::Number(0))->Ok_0;
            let jpos = m2.code.len() as int;
            let bpos = mf.code.len() - 1;
            &&& jpos < bpos
            &&& step_core_spec(mf.code, pool, bpos as int, d, v) == (StepSpec {
                r: Ok(StepEventModel::Ran),
                ip: jpos,
                data: d,
                vars: v,
            })
            &&& step_core_spec(
                mf.code,
                pool,
                jpos,
                d.push(coll).push(ValueModel::Number(cursor_bits)),
                v,
            ) == (StepSpec {
                r: Ok(StepEventModel::Ran),
                ip: mf.code.len() as int,
                data: d,
                vars: v,
            })
        }),
{
    let mf = lower_for_loop(fl, m)->Ok_0;
    let m1 = lower_for_source(fl.over, m)->Ok_0;
    let m2 = lower_const(m1, ValueModel::Number(0))->Ok_0;
    let jpos = m2.code.len() as int;
    let m3 = lower_emit(m2, OpCode::JumpIterate, InstructionArg::Signed(0));
    let m4 = lower_const(m3, ValueModel::String(fl.ident@))->Ok_0;
    let m5 = lower_emit(m4, OpCode::Assign, InstructionArg::Empty);
    let m6 = lower_statements(fl.code@, m5)->Ok_0;
    let bpos = m6.code.len() as int;
    let back = jpos - (bpos + 1);
    let m7 = lower_emit(m6, OpCode::Jump, InstructionArg::Signed(back as i16));
    let xoff = m7.code.len() - jpos - 1;
    lemma_statements_inv(fl.code@, m5);
    assert(mf.code[bpos] == (Instruction {
        opcode: OpCode::Jump,
        arg: InstructionArg::Signed(back as i16),
    }));
    assert(mf.code[jpos] == (Instruction {
        opcode: OpCode::JumpIterate,
        arg: InstructionArg::Signed(xoff as i16),
    }));
    let d2 = d.push(coll).push(ValueModel::Number(cursor_bits));
    assert(d2.drop_last() =~= d.push(coll));
    assert(d2.drop_last().drop_last() =~= d);
    assert(d2[d2.len() - 2] == coll);
}


/// The iterate instruction of a compiled for loop, seen with a cursor that
/// still indexes an element, pushes the collection back, the advanced
/// cursor, and exactly that element, and falls through into the loop body:
/// one iteration per element, in order.
pub proof fn lemma_loop_iteration_step(
    fl: ForLoopStatement,
    m: CModel,
    pool: Seq<ValueModel>,
    d: Seq<ValueModel>,
    v: Seq<PairModel>,
    elements: Seq<ValueModel>,
    cursor_bits: u64,
)
    requires
        lower_for_loop(fl, m) is Ok,
        lower_for_loop(fl, m)->Ok_0.code.len() <= usize::MAX,
        ({
            let decoded = crate::machine::number::number_index_of(cursor_bits);
            decoded matches Some(c) && c < elements.len() && c + 1
                < crate::machine::number::NUMBER_INT_LIMIT
        }),
    ensures
        ({
            let mf = lower_for_loop(fl, m)->Ok_0;
            let m1 = lower_for_source(fl.over, m)->Ok_0;
            let m2 = lower_const(m1, ValueModel::Number(0))->Ok_0;
            let jpos = m2.code.len() as int;
            let c = crate::machine::number::number_index_of(cursor_bits)->Some_0;
            step_core_spec(
                mf.code,
                pool,
                jpos,
                d.push(ValueModel::Array(elements)).push(ValueModel::Number(cursor_bits)),
                v,
            ) == (StepSpec {
                r: Ok(StepEventModel::Ran),
                ip: jpos + 1,
                data: d.push(ValueModel::Array(elements)).push(
                    ValueModel::Number(
                        crate::machine::number::number_bits_of((c + 1) as u64),
                    ),
                ).push(elements[c as int]),
                vars: v,
            })
        }),
{
    let mf = lower_for_loop(fl, m)->Ok_0;
    let m1 = lower_for_source(fl.over, m)->Ok_0;
    let m2 = lower_const(m1, ValueModel::Number(0))->Ok_0;
    let jpos = m2.code.len() as int;
    let m3 = lower_emit(m2, OpCode::JumpIterate, InstructionArg::Signed(0));
    let m4 = lower_const(m3, ValueModel::String(fl.ident@))->Ok_0;
    let m5 = lower_emit(m4, OpCode::Assign, InstructionArg::Empty);
    let m6 = lower_statements(fl.code@, m5)->Ok_0;
    lemma_statements_inv(fl.code@, m5);
    assert(mf.code[jpos].opcode is JumpIterate);
    let d2 = d.push(ValueModel::Array(elements)).push(ValueModel::Number(cursor_bits));
    assert(d2.drop_last() =~= d.push(ValueModel::Array(elements)));
    assert(d2.drop_last().drop_last() =~= d);
    assert(d2[d2.len() - 2] == ValueModel::Array(elements));
}

/// Type-gated abort: the compiled `abort x` reads the variable through a
/// job-typed getter that stands before the abort instruction; where `x` is
/// bound to anything but a job, that getter fails with a variable type
/// mismatch, so the controller is never reached.
pub proof fn lemma_type_gated_abort(
    ident: Seq<char>,
    m: CModel,
    pool: Seq<ValueModel>,
    d: Seq<ValueModel>,
    v: Seq<PairModel>,
)
    requires
        lower_ident_of_type(ident, VmValueType::Job, m) is Ok,
        ({
            let f = crate::machine::vm_stack::var_index(v, ident);
            f >= 0 && f < v.len() && !(v[f].value is Job)
        }),
        ({
            let mi = lower_ident_of_type(ident, VmValueType::Job, m)->Ok_0;
            lower_emit(mi, OpCode::Abort, InstructionArg::Empty).code.len() <= usize::MAX
        }),
    ensures
        ({
            let mi = lower_ident_of_type(ident, VmValueType::Job, m)->Ok_0;
            let mf = lower_emit(mi, OpCode::Abort, InstructionArg::Empty);
            let gpos = mi.code.len() - 1;
            &&& mf.code[gpos as int].opcode is GetVariableOfType
            &&& mf.code[mf.code.len() - 1].opcode is Abort
            &&& step_core_spec(mf.code, pool, gpos as int, d.push(ValueModel::String(ident)), v)
                == (StepSpec {
                r: Err(VmError::VariableTypeMismatch),
                ip: gpos + 1,
                data: d,
                vars: v,
            })
        }),
{
    let mi = lower_ident_of_type(ident, VmValueType::Job, m)->Ok_0;
    let mf = lower_emit(mi, OpCode::Abort, InstructionArg::Empty);
    let gpos = mi.code.len() - 1;
    assert(mf.code[gpos as int] == (Instruction {
        opcode: OpCode::GetVariableOfType,
        arg: InstructionArg::Type(VmValueType::Job),
    }));
    assert(d.push(ValueModel::String(ident)).drop_last() =~= d);
    crate::machine::vm_stack::lemma_var_index(v, ident);
}

} // verus!
