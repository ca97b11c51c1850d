use vstd::prelude::*;

use std::io::Write;

use crate::machine::memory::{Instruction, InstructionArg, PairModel, ValueModel, VmPair, VmValue};
use crate::machine::memory::{is_array_of_jobs_model, lemma_models_of, lemma_pair_models_of, matches_type};
use crate::machine::opcode::OpCode;
use crate::machine::number::{NUMBER_INT_LIMIT, number_bits, number_bits_of, number_index, number_index_of};
use crate::machine::vm_error::VmError;
use crate::machine::vm_stack::{VmStack, var_index};
use crate::controllers::vm_controller::VmController;

verus! {

/// A compiled program: the deduplicated constant pool, the flat instruction
/// stream, and the instruction pointer, which is the only field that moves
/// during execution.
#[derive(Debug)]
pub struct VmState {
    pub value_list: Vec<VmValue>,
    pub instructions: Vec<Instruction>,
    pub instruction_index: usize,
}

/// What one step of the machine reports to the driving loop.
pub enum VmExecResult {
    /// The instruction ran; call again while not done.
    Empty,
    /// Execution suspended awaiting a job; the await will be retried.
    Suspended,
}

/// Index of the first pool entry structurally equal to `v`, or -1.
pub open spec fn pool_index(pool: Seq<ValueModel>, v: ValueModel) -> int
    decreases pool.len(),
{
    if pool.len() == 0 {
        -1
    } else if pool[0] == v {
        0
    } else {
        let rest = pool_index(pool.drop_first(), v);
        if rest == -1 {
            -1
        } else {
            rest + 1
        }
    }
}

/// [`pool_index`] names the first structurally equal entry: it is -1 exactly
/// when no entry is equal, and otherwise the least index of an equal entry.
pub broadcast proof fn lemma_pool_index(pool: Seq<ValueModel>, v: ValueModel)
    ensures
        #[trigger] pool_index(pool, v) == -1 <==> (forall|i: int|
            0 <= i < pool.len() ==> #[trigger] pool[i] != v),
        pool_index(pool, v) != -1 ==> {
            &&& 0 <= pool_index(pool, v) < pool.len()
            &&& pool[pool_index(pool, v)] == v
            &&& forall|i: int| 0 <= i < pool_index(pool, v) ==> #[trigger] pool[i] != v
        },
    decreases pool.len(),
{
    if pool.len() > 0 && pool[0] != v {
        lemma_pool_index(pool.drop_first(), v);
        assert forall|i: int| 1 <= i < pool.len() implies pool.drop_first()[i - 1] == pool[i] by {}
    }
}



/// Relies on std::io::Stdout: prints one value to the console in debug form.
#[verifier::external_body]
fn print_value(value: &VmValue) {
    let mut out = std::io::stdout();
    let _ = writeln!(out, "{:?}", value);
}

/// A request that an instruction makes of the controller, with every operand
/// already popped and validated.
pub enum ControllerRequest {
    /// Start the named function, optionally passing one argument; a job
    /// handle is expected back.
    StartCall { function: String, argument: Option<VmValue> },
    /// Atomically take and clear the ready result of a job, if there is one.
    TakeResult { job: u128 },
    /// Arrange to be woken once any of the jobs completes.
    WaitAny { jobs: Vec<u128> },
    /// Arrange to be woken once all of the jobs complete.
    WaitAll { jobs: Vec<u128> },
    /// Request cancellation of the jobs; never verified by the machine.
    Cancel { jobs: Vec<u128> },
}

/// Mathematical shape of a [`ControllerRequest`].
pub enum RequestModel {
    StartCall { function: Seq<char>, argument: Option<ValueModel> },
    TakeResult { job: u128 },
    WaitAny { jobs: Seq<u128> },
    WaitAll { jobs: Seq<u128> },
    Cancel { jobs: Seq<u128> },
}

impl ControllerRequest {
    /// Mathematical model of this request.
    pub open spec fn model(&self) -> RequestModel {
        match self {
            ControllerRequest::StartCall { function, argument } => RequestModel::StartCall {
                function: function@,
                argument: match argument {
                    Some(v) => Some(v.model()),
                    None => None,
                },
            },
            ControllerRequest::TakeResult { job } => RequestModel::TakeResult { job: *job },
            ControllerRequest::WaitAny { jobs } => RequestModel::WaitAny { jobs: jobs@ },
            ControllerRequest::WaitAll { jobs } => RequestModel::WaitAll { jobs: jobs@ },
            ControllerRequest::Cancel { jobs } => RequestModel::Cancel { jobs: jobs@ },
        }
    }
}

/// What one instruction did, before any controller involvement.
pub enum StepEvent {
    /// The instruction completed on its own.
    Ran,
    /// The instruction needs the controller to finish.
    Request(ControllerRequest),
}

/// Mathematical shape of a [`StepEvent`].
pub enum StepEventModel {
    Ran,
    Request(RequestModel),
}

impl StepEvent {
    /// Mathematical model of this event.
    pub open spec fn model(&self) -> StepEventModel {
        match self {
            StepEvent::Ran => StepEventModel::Ran,
            StepEvent::Request(q) => StepEventModel::Request(q.model()),
        }
    }
}

/// The outcome one step must have: result, new pointer, new operand stack,
/// new variable bindings.
pub struct StepSpec {
    pub r: Result<StepEventModel, VmError>,
    pub ip: int,
    pub data: Seq<ValueModel>,
    pub vars: Seq<PairModel>,
}

/// The job handles of an array-of-jobs value, in array order.
pub open spec fn jobs_of(m: ValueModel) -> Seq<u128> {
    Seq::new(m->Array_0.len(), |i: int| m->Array_0[i]->Job_0)
}

/// The outcome of executing one instruction of `code` at `ip0` against the
/// constant pool `pool`, the operand stack `d` (top last) and the variable
/// bindings `v`.  This is the machine's instruction table: `step_core`
/// produces exactly this outcome.
///
/// The pointer is advanced before the instruction executes, so every jump
/// offset is relative to the next instruction.  A failing instruction leaves
/// the pops it already made undone and mutates nothing else.
pub open spec fn step_core_spec(
    code: Seq<Instruction>,
    pool: Seq<ValueModel>,
    ip0: int,
    d: Seq<ValueModel>,
    v: Seq<PairModel>,
) -> StepSpec {
    if ip0 >= code.len() {
        StepSpec { r: Err(VmError::JumpRangeError), ip: ip0, data: d, vars: v }
    } else {
        let inst = code[ip0];
        let p = ip0 + 1;
        match inst.opcode {
            OpCode::NoOp => StepSpec { r: Ok(StepEventModel::Ran), ip: p, data: d, vars: v },
            OpCode::Exit => StepSpec {
                r: Ok(StepEventModel::Ran),
                ip: code.len() as int,
                data: d,
                vars: v,
            },
            OpCode::PushValueU16 => {
                if !(inst.arg is Unsigned) {
                    StepSpec { r: Err(VmError::ArgShapeError), ip: p, data: d, vars: v }
                } else {
                    let u = inst.arg->Unsigned_0 as int;
                    if u < pool.len() {
                        StepSpec { r: Ok(StepEventModel::Ran), ip: p, data: d.push(pool[u]), vars: v }
                    } else {
                        StepSpec { r: Ok(StepEventModel::Ran), ip: p, data: d, vars: v }
                    }
                }
            },
            OpCode::PushTrue => StepSpec {
                r: Ok(StepEventModel::Ran),
                ip: p,
                data: d.push(ValueModel::Boolean(true)),
                vars: v,
            },
            OpCode::PushFalse => StepSpec {
                r: Ok(StepEventModel::Ran),
                ip: p,
                data: d.push(ValueModel::Boolean(false)),
                vars: v,
            },
            OpCode::PushNull => StepSpec {
                r: Ok(StepEventModel::Ran),
                ip: p,
                data: d.push(ValueModel::Null),
                vars: v,
            },
            OpCode::PushEmptyArray => StepSpec {
                r: Ok(StepEventModel::Ran),
                ip: p,
                data: d.push(ValueModel::Array(Seq::empty())),
                vars: v,
            },
            OpCode::PushEmptyObject => StepSpec {
                r: Ok(StepEventModel::Ran),
                ip: p,
                data: d.push(ValueModel::Object(Seq::empty())),
                vars: v,
            },
            OpCode::GetVariable => {
                if d.len() == 0 {
                    StepSpec { r: Err(VmError::StackUnderflow), ip: p, data: d, vars: v }
                } else if !(d.last() is String) {
                    StepSpec { r: Err(VmError::StackTypeMismatch), ip: p, data: d.drop_last(), vars: v }
                } else {
                    let f = var_index(v, d.last()->String_0);
                    if f == -1 {
                        StepSpec {
                            r: Err(VmError::VariableNotFound),
                            ip: p,
                            data: d.drop_last(),
                            vars: v,
                        }
                    } else {
                        StepSpec {
                            r: Ok(StepEventModel::Ran),
                            ip: p,
                            data: d.drop_last().push(v[f].value),
                            vars: v,
                        }
                    }
                }
            },
            OpCode::GetVariableOfType => {
                if !(inst.arg is Type) {
                    StepSpec { r: Err(VmError::ArgShapeError), ip: p, data: d, vars: v }
                } else if d.len() == 0 {
                    StepSpec { r: Err(VmError::StackUnderflow), ip: p, data: d, vars: v }
                } else if !(d.last() is String) {
                    StepSpec { r: Err(VmError::StackTypeMismatch), ip: p, data: d.drop_last(), vars: v }
                } else {
                    let f = var_index(v, d.last()->String_0);
                    if f == -1 {
                        StepSpec {
                            r: Err(VmError::VariableNotFound),
                            ip: p,
                            data: d.drop_last(),
                            vars: v,
                        }
                    } else if !matches_type(v[f].value, inst.arg->Type_0) {
                        StepSpec {
                            r: Err(VmError::VariableTypeMismatch),
                            ip: p,
                            data: d.drop_last(),
                            vars: v,
                        }
                    } else {
                        StepSpec {
                            r: Ok(StepEventModel::Ran),
                            ip: p,
                            data: d.drop_last().push(v[f].value),
                            vars: v,
                        }
                    }
                }
            },
            OpCode::AppendArrayPush => {
                if d.len() == 0 {
                    StepSpec { r: Err(VmError::StackUnderflow), ip: p, data: d, vars: v }
                } else if d.len() == 1 {
                    StepSpec { r: Err(VmError::StackUnderflow), ip: p, data: d.drop_last(), vars: v }
                } else if !(d[d.len() - 2] is Array) {
                    StepSpec {
                        r: Err(VmError::StackTypeMismatch),
                        ip: p,
                        data: d.drop_last().drop_last(),
                        vars: v,
                    }
                } else {
                    StepSpec {
                        r: Ok(StepEventModel::Ran),
                        ip: p,
                        data: d.drop_last().drop_last().push(
                            ValueModel::Array(d[d.len() - 2]->Array_0.push(d.last())),
                        ),
                        vars: v,
                    }
                }
            },
            OpCode::AppendPropertyPush => {
                if d.len() == 0 {
                    StepSpec { r: Err(VmError::StackUnderflow), ip: p, data: d, vars: v }
                } else if d.len() == 1 {
                    StepSpec { r: Err(VmError::StackUnderflow), ip: p, data: d.drop_last(), vars: v }
                } else if !(d[d.len() - 2] is String) {
                    StepSpec {
                        r: Err(VmError::StackTypeMismatch),
                        ip: p,
                        data: d.drop_last().drop_last(),
                        vars: v,
                    }
                } else if d.len() == 2 {
                    StepSpec {
                        r: Err(VmError::StackUnderflow),
                        ip: p,
                        data: d.drop_last().drop_last(),
                        vars: v,
                    }
                } else if !(d[d.len() - 3] is Object) {
                    StepSpec {
                        r: Err(VmError::StackTypeMismatch),
                        ip: p,
                        data: d.drop_last().drop_last().drop_last(),
                        vars: v,
                    }
                } else {
                    StepSpec {
                        r: Ok(StepEventModel::Ran),
                        ip: p,
                        data: d.drop_last().drop_last().drop_last().push(
                            ValueModel::Object(
                                d[d.len() - 3]->Object_0.push(
                                    PairModel { key: d[d.len() - 2]->String_0, value: d.last() },
                                ),
                            ),
                        ),
                        vars: v,
                    }
                }
            },
            OpCode::Assign => {
                if d.len() == 0 {
                    StepSpec { r: Err(VmError::StackUnderflow), ip: p, data: d, vars: v }
                } else if !(d.last() is String) {
                    StepSpec { r: Err(VmError::StackTypeMismatch), ip: p, data: d.drop_last(), vars: v }
                } else if d.len() == 1 {
                    StepSpec { r: Err(VmError::StackUnderflow), ip: p, data: d.drop_last(), vars: v }
                } else {
                    let name = d.last()->String_0;
                    let value = d[d.len() - 2];
                    let f = var_index(v, name);
                    StepSpec {
                        r: Ok(StepEventModel::Ran),
                        ip: p,
                        data: d.drop_last().drop_last(),
                        vars: if f >= 0 {
                            v.update(f, PairModel { key: name, value })
                        } else {
                            v.push(PairModel { key: name, value })
                        },
                    }
                }
            },
            OpCode::Pop => {
                if d.len() == 0 {
                    StepSpec { r: Err(VmError::StackUnderflow), ip: p, data: d, vars: v }
                } else {
                    StepSpec { r: Ok(StepEventModel::Ran), ip: p, data: d.drop_last(), vars: v }
                }
            },
            OpCode::Jump => {
                if !(inst.arg is Signed) {
                    StepSpec { r: Err(VmError::ArgShapeError), ip: p, data: d, vars: v }
                } else {
                    let target = p + inst.arg->Signed_0;
                    if target < 0 || target > usize::MAX {
                        StepSpec { r: Err(VmError::JumpRangeError), ip: p, data: d, vars: v }
                    } else {
                        StepSpec { r: Ok(StepEventModel::Ran), ip: target, data: d, vars: v }
                    }
                }
            },
            OpCode::JumpIfFalse => {
                if d.len() == 0 {
                    StepSpec { r: Err(VmError::StackUnderflow), ip: p, data: d, vars: v }
                } else if !(d.last() is Boolean) {
                    StepSpec { r: Err(VmError::StackTypeMismatch), ip: p, data: d.drop_last(), vars: v }
                } else if d.last()->Boolean_0 {
                    StepSpec { r: Ok(StepEventModel::Ran), ip: p, data: d.drop_last(), vars: v }
                } else if !(inst.arg is Signed) {
                    StepSpec { r: Err(VmError::ArgShapeError), ip: p, data: d.drop_last(), vars: v }
                } else {
                    let target = p + inst.arg->Signed_0;
                    if target < 0 || target > usize::MAX {
                        StepSpec { r: Err(VmError::JumpRangeError), ip: p, data: d.drop_last(), vars: v }
                    } else {
                        StepSpec { r: Ok(StepEventModel::Ran), ip: target, data: d.drop_last(), vars: v }
                    }
                }
            },
            OpCode::JumpIfTrue => {
                if d.len() == 0 {
                    StepSpec { r: Err(VmError::StackUnderflow), ip: p, data: d, vars: v }
                } else if !(d.last() is Boolean) {
                    StepSpec { r: Err(VmError::StackTypeMismatch), ip: p, data: d.drop_last(), vars: v }
                } else if !d.last()->Boolean_0 {
                    StepSpec { r: Ok(StepEventModel::Ran), ip: p, data: d.drop_last(), vars: v }
                } else if !(inst.arg is Signed) {
                    StepSpec { r: Err(VmError::ArgShapeError), ip: p, data: d.drop_last(), vars: v }
                } else {
                    let target = p + inst.arg->Signed_0;
                    if target < 0 || target > usize::MAX {
                        StepSpec { r: Err(VmError::JumpRangeError), ip: p, data: d.drop_last(), vars: v }
                    } else {
                        StepSpec { r: Ok(StepEventModel::Ran), ip: target, data: d.drop_last(), vars: v }
                    }
                }
            },
            OpCode::JumpIterate => {
                if d.len() == 0 {
                    StepSpec { r: Err(VmError::StackUnderflow), ip: p, data: d, vars: v }
                } else if !(d.last() is Number) {
                    StepSpec { r: Err(VmError::StackTypeMismatch), ip: p, data: d.drop_last(), vars: v }
                } else if d.len() == 1 {
                    StepSpec { r: Err(VmError::StackUnderflow), ip: p, data: d.drop_last(), vars: v }
                } else {
                    let coll = d[d.len() - 2];
                    let d2 = d.drop_last().drop_last();
                    if !(coll is Array) && !(coll is Object) {
                        StepSpec { r: Err(VmError::StackTypeMismatch), ip: p, data: d2, vars: v }
                    } else {
                        match number_index_of(d.last()->Number_0) {
                            None => StepSpec {
                                r: Err(VmError::StackTypeMismatch),
                                ip: p,
                                data: d2,
                                vars: v,
                            },
                            Some(cursor) => {
                                let n = if coll is Array {
                                    coll->Array_0.len()
                                } else {
                                    coll->Object_0.len()
                                };
                                if cursor < n {
                                    if cursor + 1 >= NUMBER_INT_LIMIT {
                                        StepSpec {
                                            r: Err(VmError::JumpRangeError),
                                            ip: p,
                                            data: d2,
                                            vars: v,
                                        }
                                    } else {
                                        let element = if coll is Array {
                                            coll->Array_0[cursor as int]
                                        } else {
                                            coll->Object_0[cursor as int].value
                                        };
                                        StepSpec {
                                            r: Ok(StepEventModel::Ran),
                                            ip: p,
                                            data: d2.push(coll).push(
                                                ValueModel::Number(number_bits_of((cursor + 1) as u64)),
                                            ).push(element),
                                            vars: v,
                                        }
                                    }
                                } else if !(inst.arg is Signed) {
                                    StepSpec { r: Err(VmError::ArgShapeError), ip: p, data: d2, vars: v }
                                } else {
                                    let target = p + inst.arg->Signed_0;
                                    if target < 0 || target > usize::MAX {
                                        StepSpec {
                                            r: Err(VmError::JumpRangeError),
                                            ip: p,
                                            data: d2,
                                            vars: v,
                                        }
                                    } else {
                                        StepSpec {
                                            r: Ok(StepEventModel::Ran),
                                            ip: target,
                                            data: d2,
                                            vars: v,
                                        }
                                    }
                                }
                            },
                        }
                    }
                }
            },
            OpCode::Swap2 => {
                if d.len() == 0 {
                    StepSpec { r: Err(VmError::StackUnderflow), ip: p, data: d, vars: v }
                } else if d.len() == 1 {
                    StepSpec { r: Err(VmError::StackUnderflow), ip: p, data: d.drop_last(), vars: v }
                } else {
                    StepSpec {
                        r: Ok(StepEventModel::Ran),
                        ip: p,
                        data: d.drop_last().drop_last().push(d.last()).push(d[d.len() - 2]),
                        vars: v,
                    }
                }
            },
            OpCode::PrintToConsole => {
                if d.len() == 0 {
                    StepSpec { r: Err(VmError::StackUnderflow), ip: p, data: d, vars: v }
                } else {
                    StepSpec { r: Ok(StepEventModel::Ran), ip: p, data: d.drop_last(), vars: v }
                }
            },
            OpCode::Call => {
                if d.len() == 0 {
                    StepSpec { r: Err(VmError::StackUnderflow), ip: p, data: d, vars: v }
                } else if d.len() == 1 {
                    StepSpec { r: Err(VmError::StackUnderflow), ip: p, data: d.drop_last(), vars: v }
                } else if !(d[d.len() - 2] is String) {
                    StepSpec {
                        r: Err(VmError::StackTypeMismatch),
                        ip: p,
                        data: d.drop_last().drop_last(),
                        vars: v,
                    }
                } else {
                    StepSpec {
                        r: Ok(
                            StepEventModel::Request(
                                RequestModel::StartCall {
                                    function: d[d.len() - 2]->String_0,
                                    argument: Some(d.last()),
                                },
                            ),
                        ),
                        ip: p,
                        data: d.drop_last().drop_last(),
                        vars: v,
                    }
                }
            },
            OpCode::CallNoArg => {
                if d.len() == 0 {
                    StepSpec { r: Err(VmError::StackUnderflow), ip: p, data: d, vars: v }
                } else if !(d.last() is String) {
                    StepSpec { r: Err(VmError::StackTypeMismatch), ip: p, data: d.drop_last(), vars: v }
                } else {
                    StepSpec {
                        r: Ok(
                            StepEventModel::Request(
                                RequestModel::StartCall {
                                    function: d.last()->String_0,
                                    argument: None,
                                },
                            ),
                        ),
                        ip: p,
                        data: d.drop_last(),
                        vars: v,
                    }
                }
            },
            OpCode::Await => {
                if d.len() == 0 {
                    StepSpec { r: Err(VmError::StackUnderflow), ip: p, data: d, vars: v }
                } else if !(d.last() is Job) {
                    StepSpec { r: Err(VmError::StackTypeMismatch), ip: p, data: d.drop_last(), vars: v }
                } else {
                    StepSpec {
                        r: Ok(
                            StepEventModel::Request(
                                RequestModel::TakeResult { job: d.last()->Job_0 },
                            ),
                        ),
                        ip: p,
                        data: d.drop_last(),
                        vars: v,
                    }
                }
            },
            OpCode::Abort => {
                if d.len() == 0 {
                    StepSpec { r: Err(VmError::StackUnderflow), ip: p, data: d, vars: v }
                } else if !(d.last() is Job) {
                    StepSpec { r: Err(VmError::StackTypeMismatch), ip: p, data: d.drop_last(), vars: v }
                } else {
                    StepSpec {
                        r: Ok(
                            StepEventModel::Request(
                                RequestModel::Cancel { jobs: seq![d.last()->Job_0] },
                            ),
                        ),
                        ip: p,
                        data: d.drop_last(),
                        vars: v,
                    }
                }
            },
            OpCode::AbortAll => {
                if d.len() == 0 {
                    StepSpec { r: Err(VmError::StackUnderflow), ip: p, data: d, vars: v }
                } else if !is_array_of_jobs_model(d.last()) {
                    StepSpec { r: Err(VmError::StackTypeMismatch), ip: p, data: d.drop_last(), vars: v }
                } else {
                    StepSpec {
                        r: Ok(
                            StepEventModel::Request(
                                RequestModel::Cancel { jobs: jobs_of(d.last()) },
                            ),
                        ),
                        ip: p,
                        data: d.drop_last(),
                        vars: v,
                    }
                }
            },
            OpCode::AwaitAny => {
                if d.len() == 0 {
                    StepSpec { r: Err(VmError::StackUnderflow), ip: p, data: d, vars: v }
                } else if !is_array_of_jobs_model(d.last()) {
                    StepSpec { r: Err(VmError::StackTypeMismatch), ip: p, data: d.drop_last(), vars: v }
                } else {
                    StepSpec {
                        r: Ok(
                            StepEventModel::Request(
                                RequestModel::WaitAny { jobs: jobs_of(d.last()) },
                            ),
                        ),
                        ip: p,
                        data: d.drop_last(),
                        vars: v,
                    }
                }
            },
            OpCode::AwaitAll => {
                if d.len() == 0 {
                    StepSpec { r: Err(VmError::StackUnderflow), ip: p, data: d, vars: v }
                } else if !is_array_of_jobs_model(d.last()) {
                    StepSpec { r: Err(VmError::StackTypeMismatch), ip: p, data: d.drop_last(), vars: v }
                } else {
                    StepSpec {
                        r: Ok(
                            StepEventModel::Request(
                                RequestModel::WaitAll { jobs: jobs_of(d.last()) },
                            ),
                        ),
                        ip: p,
                        data: d.drop_last(),
                        vars: v,
                    }
                }
            },
        }
    }
}


/// Whenever one step leaves a controller request, the pointer stands right
/// after the requesting instruction.
pub proof fn lemma_request_ip(
    code: Seq<Instruction>,
    pool: Seq<ValueModel>,
    ip0: int,
    d: Seq<ValueModel>,
    v: Seq<PairModel>,
)
    ensures
        (step_core_spec(code, pool, ip0, d, v).r matches Ok(ev) && ev is Request)
            ==> step_core_spec(code, pool, ip0, d, v).ip == ip0 + 1,
{
}


/// A step on code free of job opcodes never asks anything of the
/// controller: together with the compiler's guarantee that a program
/// without start, await or abort statements compiles to such code, a
/// driving loop makes zero controller calls on such a program.
pub proof fn lemma_step_makes_no_request(
    code: Seq<Instruction>,
    pool: Seq<ValueModel>,
    ip0: int,
    d: Seq<ValueModel>,
    v: Seq<PairModel>,
)
    requires
        ip0 >= 0,
        forall|k: int|
            0 <= k < code.len() ==> !crate::machine::opcode::job_opcode(
                (#[trigger] code[k]).opcode,
            ),
    ensures
        step_core_spec(code, pool, ip0, d, v).r matches Ok(ev) ==> ev is Ran,
{
    if 0 <= ip0 < code.len() {
        assert(!crate::machine::opcode::job_opcode(code[ip0].opcode));
        match code[ip0].opcode {
            OpCode::NoOp => {},
            OpCode::Exit => {},
            OpCode::PushValueU16 => {},
            OpCode::PushTrue => {},
            OpCode::PushFalse => {},
            OpCode::PushNull => {},
            OpCode::PushEmptyArray => {},
            OpCode::PushEmptyObject => {},
            OpCode::GetVariable => {},
            OpCode::GetVariableOfType => {},
            OpCode::Await => {},
            OpCode::Abort => {},
            OpCode::AbortAll => {},
            OpCode::AwaitAny => {},
            OpCode::AwaitAll => {},
            OpCode::Call => {},
            OpCode::CallNoArg => {},
            OpCode::AppendArrayPush => {},
            OpCode::AppendPropertyPush => {},
            OpCode::Assign => {},
            OpCode::Pop => {},
            OpCode::Jump => {},
            OpCode::JumpIfFalse => {},
            OpCode::JumpIfTrue => {},
            OpCode::JumpIterate => {},
            OpCode::Swap2 => {},
            OpCode::PrintToConsole => {},
        }
    }
}

impl VmState {
    /// Models of the constant pool entries, in pool order.
    pub open spec fn pool_models(&self) -> Seq<ValueModel> {
        VmValue::models_of(self.value_list@)
    }

    /// The instruction stream.
    pub open spec fn code(&self) -> Seq<Instruction> {
        self.instructions@
    }

    /// The instruction pointer.
    pub open spec fn ip(&self) -> int {
        self.instruction_index as int
    }

    /// A fresh, empty program.
    pub fn new() -> (r: VmState)
        ensures
            r.pool_models() == Seq::<ValueModel>::empty(),
            r.code() == Seq::<Instruction>::empty(),
            r.ip() == 0,
    {
        VmState { instructions: Vec::new(), value_list: Vec::new(), instruction_index: 0 }
    }

    /// Intern a value: return the index of the first structurally equal pool
    /// entry, appending the value first when no entry equals it.  `None` when
    /// the resulting index would not fit the unsigned instruction argument.
    #[verifier::loop_isolation(false)]
    pub fn value_index(&mut self, value: VmValue) -> (r: Option<u16>)
        ensures
            final(self).code() == old(self).code(),
            final(self).ip() == old(self).ip(),
            ({
                let f = pool_index(old(self).pool_models(), value.model());
                match r {
                    Some(idx) => {
                        &&& f >= 0 ==> f <= u16::MAX && idx == f && final(self).pool_models()
                            == old(self).pool_models()
                        &&& f == -1 ==> old(self).pool_models().len() <= u16::MAX && idx == old(
                            self,
                        ).pool_models().len() && final(self).pool_models() == old(
                            self,
                        ).pool_models().push(value.model())
                    },
                    None => {
                        &&& (f > u16::MAX || (f == -1 && old(self).pool_models().len()
                            > u16::MAX))
                        &&& final(self).pool_models() == old(self).pool_models()
                    },
                }
            }),
    {
        proof {
            lemma_models_of(self.value_list@);
            lemma_pool_index(self.pool_models(), value.model());
        }
        let ghost before = self.value_list@;
        let mut idx: usize = 0;
        while idx < self.value_list.len()
            invariant
                0 <= idx <= self.value_list@.len(),
                self.value_list@ == before,
                self.instructions@ == old(self).instructions@,
                self.instruction_index == old(self).instruction_index,
                forall|i: int|
                    0 <= i < idx ==> #[trigger] VmValue::models_of(before)[i] != value.model(),
            decreases self.value_list@.len() - idx,
        {
            if self.value_list[idx].eq_value(&value) {
                proof {
                    let f = pool_index(self.pool_models(), value.model());
                    assert(self.pool_models()[idx as int] == value.model());
                    assert(f != -1);
                    if f < idx as int {
                        assert(self.pool_models()[f] != value.model());
                        assert(false);
                    }
                    if f > idx as int {
                        assert(self.pool_models()[idx as int] != value.model());
                        assert(false);
                    }
                }
                if idx <= u16::MAX as usize {
                    return Some(idx as u16);
                } else {
                    return None;
                }
            }
            idx += 1;
        }
        let new_index = self.value_list.len();
        if new_index > u16::MAX as usize {
            return None;
        }
        self.value_list.push(value);
        proof {
            lemma_models_of(self.value_list@);
            assert(self.value_list@.drop_last() =~= before);
            assert(self.pool_models() =~= old(self).pool_models().push(value.model()));
        }
        Some(new_index as u16)
    }

    /// Append one instruction to the stream.
    pub fn push_instruction(&mut self, inst: Instruction)
        ensures
            final(self).code() == old(self).code().push(inst),
            final(self).pool_models() == old(self).pool_models(),
            final(self).ip() == old(self).ip(),
    {
        self.instructions.push(inst);
    }

    /// The instruction stream, as a slice.
    pub fn instructions(&self) -> (r: &[Instruction])
        ensures
            r@ == self.code(),
    {
        self.instructions.as_slice()
    }

    /// Read the instruction at an index, if there is one.
    pub fn get_instruction(&self, index: usize) -> (r: Option<Instruction>)
        ensures
            index < self.code().len() ==> r == Some(self.code()[index as int]),
            index >= self.code().len() ==> r is None,
    {
        if index < self.instructions.len() {
            Some(self.instructions[index])
        } else {
            None
        }
    }

    /// Overwrite the instruction at `index`; this is how a placeholder jump
    /// is backpatched once its target is known.
    pub fn set_instruction(&mut self, index: usize, inst: Instruction)
        requires
            index < old(self).code().len(),
        ensures
            final(self).code() == old(self).code().update(index as int, inst),
            final(self).pool_models() == old(self).pool_models(),
            final(self).ip() == old(self).ip(),
    {
        self.instructions[index] = inst;
    }

    /// Is execution finished (the pointer is at or past the end)?
    pub fn is_done(&self) -> (r: bool)
        ensures
            r == (self.code().len() <= self.ip()),
    {
        self.instructions.len() <= self.instruction_index
    }


    /// Fetch the next instruction, advancing the pointer; stepping a finished
    /// program is a pointer range error.
    fn next_instruction(&mut self) -> (r: Result<Instruction, VmError>)
        ensures
            final(self).code() == old(self).code(),
            final(self).pool_models() == old(self).pool_models(),
            match r {
                Ok(inst) => {
                    &&& old(self).ip() < old(self).code().len()
                    &&& inst == old(self).code()[old(self).ip()]
                    &&& final(self).ip() == old(self).ip() + 1
                },
                Err(e) => {
                    &&& old(self).ip() >= old(self).code().len()
                    &&& e is JumpRangeError
                    &&& final(self).ip() == old(self).ip()
                },
            },
    {
        if self.is_done() {
            return Err(VmError::JumpRangeError);
        }
        assert(self.instruction_index < self.instructions.len());
        let instruction = self.instructions[self.instruction_index];
        self.instruction_index = self.instruction_index + 1;
        Ok(instruction)
    }

    /// Execute exactly one instruction, stopping short of the controller:
    /// a job-related opcode pops and validates its operands and hands back
    /// the request it needs answered, everything else completes here.  The
    /// outcome is exactly [`step_core_spec`].
    #[verifier::rlimit(100)]
    #[verifier::spinoff_prover]
    pub fn step_core(&mut self, stack: &mut VmStack) -> (r: Result<StepEvent, VmError>)
        ensures
            final(self).code() == old(self).code(),
            final(self).pool_models() == old(self).pool_models(),
            ({
                let s = step_core_spec(
                    old(self).code(),
                    old(self).pool_models(),
                    old(self).ip(),
                    old(stack).data_models(),
                    old(stack).var_models(),
                );
                &&& final(self).ip() == s.ip
                &&& final(stack).data_models() == s.data
                &&& final(stack).var_models() == s.vars
                &&& s.r == (match r {
                    Ok(ev) => Ok::<StepEventModel, VmError>(ev.model()),
                    Err(e) => Err::<StepEventModel, VmError>(e),
                })
            }),
    {
        let instruction = self.next_instruction()?;
        match instruction.opcode {
            OpCode::NoOp => {
            },
            OpCode::Exit => {
                self.instruction_index = self.instructions.len();
            },
            OpCode::PushValueU16 => {
                proof {
                    lemma_models_of(self.value_list@);
                }
                match instruction.arg {
                    InstructionArg::Unsigned(index) => {
                        if (index as usize) < self.value_list.len() {
                            let cloned = self.value_list[index as usize].clone();
                            stack.push_value(cloned);
                        }
                    },
                    _ => {
                        return Err(VmError::ArgShapeError);
                    },
                }
            },
            OpCode::PushTrue => {
                stack.push_value(VmValue::Boolean(true));
            },
            OpCode::PushFalse => {
                stack.push_value(VmValue::Boolean(false));
            },
            OpCode::PushNull => {
                stack.push_value(VmValue::Null);
            },
            OpCode::PushEmptyArray => {
                stack.push_value(VmValue::Array(Vec::new()));
            },
            OpCode::PushEmptyObject => {
                stack.push_value(VmValue::Object(Vec::new()));
            },
            OpCode::GetVariable => {
                let key = stack.pop_string()?;
                let variable = match stack.get_variable(key.as_str()) {
                    Some(v) => v,
                    None => {
                        return Err(VmError::VariableNotFound);
                    },
                };
                stack.push_value(variable);
            },
            OpCode::GetVariableOfType => {
                let expected_type = match instruction.arg.get_vm_type() {
                    Ok(t) => t,
                    Err(_) => {
                        return Err(VmError::ArgShapeError);
                    },
                };
                let key = stack.pop_string()?;
                let variable = match stack.get_variable(key.as_str()) {
                    Some(v) => v,
                    None => {
                        return Err(VmError::VariableNotFound);
                    },
                };
                if !variable.is_type(expected_type) {
                    return Err(VmError::VariableTypeMismatch);
                }
                stack.push_value(variable);
            },
            OpCode::AppendArrayPush => {
                let value = stack.pop_value()?;
                let mut array = stack.pop_array()?;
                let ghost arr_before = array@;
                array.push(value);
                proof {
                    lemma_models_of(arr_before);
                    lemma_models_of(array@);
                    assert(array@.drop_last() =~= arr_before);
                    assert(VmValue::models_of(array@) =~= VmValue::models_of(arr_before).push(
                        array@.last().model(),
                    ));
                }
                stack.push_value(VmValue::Array(array));
            },
            OpCode::AppendPropertyPush => {
                let value = stack.pop_value()?;
                let key = stack.pop_string()?;
                let mut object = stack.pop_object()?;
                let ghost obj_before = object@;
                object.push(VmPair { key, value });
                proof {
                    lemma_pair_models_of(obj_before);
                    lemma_pair_models_of(object@);
                    assert(object@.drop_last() =~= obj_before);
                    assert(VmValue::pair_models_of(object@) =~= VmValue::pair_models_of(
                        obj_before,
                    ).push(object@.last().model()));
                }
                stack.push_value(VmValue::Object(object));
            },
            OpCode::Assign => {
                let key = stack.pop_string()?;
                let value = stack.pop_value()?;
                stack.set_variable(key.as_str(), value);
                proof {
                    crate::machine::vm_stack::lemma_var_index(old(stack).var_models(), key@);
                }
            },
            OpCode::Pop => {
                let discarded = stack.pop_value()?;
            },
            OpCode::Jump => {
                let i = match instruction.arg.get_signed() {
                    Ok(i) => i,
                    Err(_) => {
                        return Err(VmError::ArgShapeError);
                    },
                };
                self.jump_instruction_index(i)?;
            },
            OpCode::JumpIfFalse => {
                let flag = stack.pop_bool()?;
                if !flag {
                    let i = match instruction.arg.get_signed() {
                        Ok(i) => i,
                        Err(_) => {
                            return Err(VmError::ArgShapeError);
                        },
                    };
                    self.jump_instruction_index(i)?;
                }
            },
            OpCode::JumpIfTrue => {
                let flag = stack.pop_bool()?;
                if flag {
                    let i = match instruction.arg.get_signed() {
                        Ok(i) => i,
                        Err(_) => {
                            return Err(VmError::ArgShapeError);
                        },
                    };
                    self.jump_instruction_index(i)?;
                }
            },
            OpCode::JumpIterate => {
                let cursor_bits = stack.pop_number()?;
                let collection = stack.pop_value()?;
                let cursor = match number_index(cursor_bits) {
                    Some(c) => c,
                    None => {
                        return Err(VmError::StackTypeMismatch);
                    },
                };
                match collection {
                    VmValue::Array(array) => {
                        proof {
                            lemma_models_of(array@);
                        }
                        if cursor < array.len() as u64 {
                            if cursor >= NUMBER_INT_LIMIT - 1 {
                                return Err(VmError::JumpRangeError);
                            }
                            let element = array[cursor as usize].clone();
                            stack.push_value(VmValue::Array(array));
                            stack.push_value(VmValue::Number(number_bits(cursor + 1)));
                            stack.push_value(element);
                        } else {
                            let i = match instruction.arg.get_signed() {
                                Ok(i) => i,
                                Err(_) => {
                                    return Err(VmError::ArgShapeError);
                                },
                            };
                            self.jump_instruction_index(i)?;
                        }
                    },
                    VmValue::Object(object) => {
                        proof {
                            lemma_pair_models_of(object@);
                        }
                        if cursor < object.len() as u64 {
                            if cursor >= NUMBER_INT_LIMIT - 1 {
                                return Err(VmError::JumpRangeError);
                            }
                            let element = object[cursor as usize].value.clone();
                            stack.push_value(VmValue::Object(object));
                            stack.push_value(VmValue::Number(number_bits(cursor + 1)));
                            stack.push_value(element);
                        } else {
                            let i = match instruction.arg.get_signed() {
                                Ok(i) => i,
                                Err(_) => {
                                    return Err(VmError::ArgShapeError);
                                },
                            };
                            self.jump_instruction_index(i)?;
                        }
                    },
                    _ => {
                        return Err(VmError::StackTypeMismatch);
                    },
                }
            },
            OpCode::Swap2 => {
                let value1 = stack.pop_value()?;
                let value2 = stack.pop_value()?;
                stack.push_value(value1);
                stack.push_value(value2);
            },
            OpCode::PrintToConsole => {
                let value = stack.pop_value()?;
                print_value(&value);
            },
            OpCode::Call => {
                let value = stack.pop_value()?;
                let function_name = stack.pop_string()?;
                return Ok(
                    StepEvent::Request(
                        ControllerRequest::StartCall {
                            function: function_name,
                            argument: Some(value),
                        },
                    ),
                );
            },
            OpCode::CallNoArg => {
                let function_name = stack.pop_string()?;
                return Ok(
                    StepEvent::Request(
                        ControllerRequest::StartCall { function: function_name, argument: None },
                    ),
                );
            },
            OpCode::Await => {
                let job = stack.pop_job()?;
                return Ok(StepEvent::Request(ControllerRequest::TakeResult { job }));
            },
            OpCode::Abort => {
                let job = stack.pop_job()?;
                let mut jobs: Vec<u128> = Vec::new();
                jobs.push(job);
                proof {
                    assert(jobs@ =~= seq![job]);
                }
                return Ok(StepEvent::Request(ControllerRequest::Cancel { jobs }));
            },
            OpCode::AbortAll => {
                let jobs = stack.pop_array_of_jobs()?;
                proof {
                    assert(jobs@ =~= jobs_of(old(stack).data_models().last()));
                }
                return Ok(StepEvent::Request(ControllerRequest::Cancel { jobs }));
            },
            OpCode::AwaitAny => {
                let jobs = stack.pop_array_of_jobs()?;
                proof {
                    assert(jobs@ =~= jobs_of(old(stack).data_models().last()));
                }
                return Ok(StepEvent::Request(ControllerRequest::WaitAny { jobs }));
            },
            OpCode::AwaitAll => {
                let jobs = stack.pop_array_of_jobs()?;
                proof {
                    assert(jobs@ =~= jobs_of(old(stack).data_models().last()));
                }
                return Ok(StepEvent::Request(ControllerRequest::WaitAll { jobs }));
            },
        }
        Ok(StepEvent::Ran)
    }


    /// Execute exactly one instruction, delegating job-related work to the
    /// controller.  The machine's own part is exactly [`step_core_spec`];
    /// what the controller contributes (the job handle of a started call,
    /// the taken result of an awaited job, the success or failure of a wait
    /// or a cancellation) is constrained only as far as every controller
    /// answer allows.
    ///
    /// An await whose job is not ready re-pushes the job and rewinds the
    /// pointer before reporting `Suspended`, so stepping again retries the
    /// same await.
    pub fn step<C: VmController>(
        &mut self,
        stack: &mut VmStack,
        controller: &mut C,
    ) -> (r: Result<VmExecResult, VmError>)
        ensures
            final(self).code() == old(self).code(),
            final(self).pool_models() == old(self).pool_models(),
            ({
                let s = step_core_spec(
                    old(self).code(),
                    old(self).pool_models(),
                    old(self).ip(),
                    old(stack).data_models(),
                    old(stack).var_models(),
                );
                &&& final(stack).var_models() == s.vars
                &&& match s.r {
                    Err(e0) => r == Err::<VmExecResult, VmError>(e0) && final(self).ip() == s.ip
                        && final(stack).data_models() == s.data,
                    Ok(StepEventModel::Ran) => r == Ok::<VmExecResult, VmError>(VmExecResult::Empty)
                        && final(self).ip() == s.ip && final(stack).data_models() == s.data,
                    Ok(StepEventModel::Request(req)) => match req {
                        RequestModel::StartCall { function, argument } => match r {
                            Ok(res) => res is Empty && final(self).ip() == s.ip && (exists|j: u128|
                                final(stack).data_models() == #[trigger] s.data.push(
                                    ValueModel::Job(j),
                                )),
                            Err(e) => e is ControllerError && final(self).ip() == s.ip && final(stack).data_models() == s.data,
                        },
                        RequestModel::TakeResult { job } => match r {
                            Ok(res) => {
                                ||| (res is Empty && final(self).ip() == s.ip && (exists|
                                    val: ValueModel,
                                |
                                    final(stack).data_models() == #[trigger] s.data.push(val)))
                                ||| (res is Suspended && final(self).ip() == s.ip - 1 && final(stack).data_models() == s.data.push(ValueModel::Job(job)))
                            },
                            Err(e) => e is ControllerError && final(self).ip() == s.ip && final(stack).data_models() == s.data,
                        },
                        RequestModel::WaitAny { jobs } => final(self).ip() == s.ip && final(stack).data_models() == s.data && match r {
                            Ok(res) => res is Suspended,
                            Err(e) => e is ControllerError,
                        },
                        RequestModel::WaitAll { jobs } => final(self).ip() == s.ip && final(stack).data_models() == s.data && match r {
                            Ok(res) => res is Suspended,
                            Err(e) => e is ControllerError,
                        },
                        RequestModel::Cancel { jobs } => final(self).ip() == s.ip && final(stack).data_models() == s.data && match r {
                            Ok(res) => res is Empty,
                            Err(e) => e is ControllerError,
                        },
                    },
                }
            }),
    {
        proof {
            lemma_request_ip(
                self.code(),
                self.pool_models(),
                self.ip(),
                stack.data_models(),
                stack.var_models(),
            );
        }
        let event = self.step_core(stack)?;
        match event {
            StepEvent::Ran => Ok(VmExecResult::Empty),
            StepEvent::Request(request) => match request {
                ControllerRequest::StartCall { function, argument } => {
                    match controller.call(function, argument) {
                        Ok(job) => {
                            stack.push_value(VmValue::Job(job));
                            Ok(VmExecResult::Empty)
                        },
                        Err(message) => Err(VmError::ControllerError(message)),
                    }
                },
                ControllerRequest::TakeResult { job } => {
                    match controller.get_and_remove_result_of(job) {
                        Ok(Some(value)) => {
                            stack.push_value(value);
                            Ok(VmExecResult::Empty)
                        },
                        Ok(None) => {
                            let mut jobs: Vec<u128> = Vec::new();
                            jobs.push(job);
                            match controller.suspend_until_any(self, jobs) {
                                Ok(()) => {
                                    stack.push_value(VmValue::Job(job));
                                    self.instruction_index = self.instruction_index - 1;
                                    Ok(VmExecResult::Suspended)
                                },
                                Err(message) => Err(VmError::ControllerError(message)),
                            }
                        },
                        Err(message) => Err(VmError::ControllerError(message)),
                    }
                },
                ControllerRequest::WaitAny { jobs } => {
                    match controller.suspend_until_any(self, jobs) {
                        Ok(()) => Ok(VmExecResult::Suspended),
                        Err(message) => Err(VmError::ControllerError(message)),
                    }
                },
                ControllerRequest::WaitAll { jobs } => {
                    match controller.suspend_until_all(self, jobs) {
                        Ok(()) => Ok(VmExecResult::Suspended),
                        Err(message) => Err(VmError::ControllerError(message)),
                    }
                },
                ControllerRequest::Cancel { jobs } => {
                    match controller.abort(jobs) {
                        Ok(()) => Ok(VmExecResult::Empty),
                        Err(message) => Err(VmError::ControllerError(message)),
                    }
                },
            },
        }
    }

    /// Move the pointer by a signed offset, relative to the already-advanced
    /// position; a target before the start of the stream is a range error.
    fn jump_instruction_index(&mut self, i: i16) -> (r: Result<(), VmError>)
        ensures
            final(self).code() == old(self).code(),
            final(self).pool_models() == old(self).pool_models(),
            match r {
                Ok(()) => final(self).ip() == old(self).ip() + i && final(self).ip() >= 0,
                Err(e) => {
                    &&& e is JumpRangeError
                    &&& old(self).ip() + i < 0 || old(self).ip() + i > usize::MAX
                    &&& final(self).ip() == old(self).ip()
                },
            },
    {
        if i < 0 {
            let magnitude = (-(i as i32)) as usize;
            match self.instruction_index.checked_sub(magnitude) {
                Some(new_index) => {
                    self.instruction_index = new_index;
                    Ok(())
                },
                None => Err(VmError::JumpRangeError),
            }
        } else {
            match self.instruction_index.checked_add(i as usize) {
                Some(new_index) => {
                    self.instruction_index = new_index;
                    Ok(())
                },
                None => Err(VmError::JumpRangeError),
            }
        }
    }
}

} // verus!
