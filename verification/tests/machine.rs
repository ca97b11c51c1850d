use x39vm::assembler::ast::{
    AssignStatementData, AssignmentStatement, AssignmentType, AwaitCallOrIdentProduction,
    AwaitStatement, Call, CallValue, ElseStatement, ForLoopStatement, ForLoopInstruction,
    IfElseStatement, IfStatement, IfStatementCondition, Property, Statement, Value, X39File,
};
use x39vm::assembler::compiler::compile;
use x39vm::controllers::vm_controller::VmController;
use x39vm::machine::memory::{Instruction, InstructionArg, VmValue};
use x39vm::machine::number::{number_bits, number_index, signed_number_bits};
use x39vm::machine::opcode::OpCode;
use x39vm::machine::serializer::{deserialize_vm_state, serialize_vm_state};
use x39vm::machine::vm_error::VmError;
use x39vm::machine::vm_stack::VmStack;
use x39vm::machine::vm_state::{VmExecResult, VmState};

/// A controller for programs that must never need one.
struct NoController {
    calls: usize,
}

impl VmController for NoController {
    fn call(&mut self, _function: String, _arg: Option<VmValue>) -> Result<u128, String> {
        self.calls += 1;
        Err("no controller call expected".to_string())
    }
    fn get_and_remove_result_of(&mut self, _job: u128) -> Result<Option<VmValue>, String> {
        self.calls += 1;
        Err("no controller call expected".to_string())
    }
    fn suspend_until_all(&mut self, _state: &VmState, _jobs: Vec<u128>) -> Result<(), String> {
        self.calls += 1;
        Err("no controller call expected".to_string())
    }
    fn suspend_until_any(&mut self, _state: &VmState, _jobs: Vec<u128>) -> Result<(), String> {
        self.calls += 1;
        Err("no controller call expected".to_string())
    }
    fn abort(&mut self, _jobs: Vec<u128>) -> Result<(), String> {
        self.calls += 1;
        Err("no controller call expected".to_string())
    }
}

/// A controller scripted to answer every started call with one result.
struct ScriptController {
    next_job: u128,
    result: Option<VmValue>,
    pending: usize,
    started: Vec<String>,
    cancelled: Vec<u128>,
}

impl ScriptController {
    fn new(result: VmValue) -> ScriptController {
        ScriptController {
            next_job: 100,
            result: Some(result),
            pending: 0,
            started: Vec::new(),
            cancelled: Vec::new(),
        }
    }
}

impl VmController for ScriptController {
    fn call(&mut self, function: String, _arg: Option<VmValue>) -> Result<u128, String> {
        self.started.push(function);
        self.next_job += 1;
        Ok(self.next_job)
    }
    fn get_and_remove_result_of(&mut self, _job: u128) -> Result<Option<VmValue>, String> {
        if self.pending > 0 {
            self.pending -= 1;
            Ok(None)
        } else {
            Ok(self.result.clone())
        }
    }
    fn suspend_until_all(&mut self, _state: &VmState, _jobs: Vec<u128>) -> Result<(), String> {
        Ok(())
    }
    fn suspend_until_any(&mut self, _state: &VmState, _jobs: Vec<u128>) -> Result<(), String> {
        Ok(())
    }
    fn abort(&mut self, jobs: Vec<u128>) -> Result<(), String> {
        for job in jobs {
            self.cancelled.push(job);
        }
        Ok(())
    }
}

fn run<C: VmController>(
    state: &mut VmState,
    stack: &mut VmStack,
    controller: &mut C,
) -> Result<(), VmError> {
    while !state.is_done() {
        state.step(stack, controller)?;
    }
    Ok(())
}

fn num(value: f64) -> Value {
    Value::Number(value.to_bits())
}

fn assign(name: &str, value: Value) -> Statement {
    Statement::Assignment(AssignmentStatement {
        ident: name.to_string(),
        value: AssignmentType::Assign(AssignStatementData::Value(value)),
    })
}

fn append(name: &str, value: Value) -> Statement {
    Statement::Assignment(AssignmentStatement {
        ident: name.to_string(),
        value: AssignmentType::Append(AssignStatementData::Value(value)),
    })
}

#[test]
fn no_io_program_runs_to_done_without_controller() {
    // a = [1,2]; print a; a += 3; print a;  — runs to done and the
    // controller is never consulted.
    let file = X39File {
        statements: vec![
            assign("a", Value::Array(vec![num(1.0), num(2.0)])),
            Statement::Print("a".to_string()),
            append("a", num(3.0)),
            Statement::Print("a".to_string()),
        ],
    };
    let mut state = compile(file).unwrap();
    let mut stack = VmStack::new();
    let mut controller = NoController { calls: 0 };
    run(&mut state, &mut stack, &mut controller).unwrap();
    assert!(state.is_done());
    assert_eq!(controller.calls, 0);
}

#[test]
fn append_semantics() {
    // a = [1,2]; a += 3;  leaves a bound to [1,2,3].
    let file = X39File {
        statements: vec![
            assign("a", Value::Array(vec![num(1.0), num(2.0)])),
            append("a", num(3.0)),
        ],
    };
    let mut state = compile(file).unwrap();
    let mut stack = VmStack::new();
    let mut controller = NoController { calls: 0 };
    run(&mut state, &mut stack, &mut controller).unwrap();
    let expected = VmValue::Array(vec![
        VmValue::Number(1.0f64.to_bits()),
        VmValue::Number(2.0f64.to_bits()),
        VmValue::Number(3.0f64.to_bits()),
    ]);
    let bound = stack.get_variable("a").unwrap();
    assert!(bound.eq_value(&expected));
    assert_eq!(controller.calls, 0);
}

#[test]
fn branch_exclusivity_true_runs_only_then_branch() {
    // if await cond() { x = "then" } else { x = "else" }  with a controller
    // making the condition true binds x to "then" only.
    let file = X39File {
        statements: vec![Statement::IfElse(IfElseStatement {
            if_statement: IfStatement {
                condition: IfStatementCondition::Await(AwaitCallOrIdentProduction::Call(Call {
                    ident: "cond".to_string(),
                    value: None,
                })),
                code: vec![assign("x", Value::String("then".to_string()))],
            },
            else_statement: Some(ElseStatement::Code(vec![assign(
                "x",
                Value::String("else".to_string()),
            )])),
        })],
    };
    let mut state = compile(file).unwrap();
    let mut stack = VmStack::new();
    let mut controller = ScriptController::new(VmValue::Boolean(true));
    run(&mut state, &mut stack, &mut controller).unwrap();
    let bound = stack.get_variable("x").unwrap();
    assert!(bound.eq_value(&VmValue::String("then".to_string())));
    assert_eq!(controller.started, vec!["cond".to_string()]);
}

#[test]
fn branch_exclusivity_false_runs_only_else_branch() {
    let file = X39File {
        statements: vec![Statement::IfElse(IfElseStatement {
            if_statement: IfStatement {
                condition: IfStatementCondition::Await(AwaitCallOrIdentProduction::Call(Call {
                    ident: "cond".to_string(),
                    value: None,
                })),
                code: vec![assign("x", Value::String("then".to_string()))],
            },
            else_statement: Some(ElseStatement::Code(vec![assign(
                "x",
                Value::String("else".to_string()),
            )])),
        })],
    };
    let mut state = compile(file).unwrap();
    let mut stack = VmStack::new();
    let mut controller = ScriptController::new(VmValue::Boolean(false));
    run(&mut state, &mut stack, &mut controller).unwrap();
    let bound = stack.get_variable("x").unwrap();
    assert!(bound.eq_value(&VmValue::String("else".to_string())));
}

#[test]
fn loop_iteration_count_and_order() {
    // out = []; for x in [10,20,30] { out += x }  runs the body three times
    // with x bound to the values in order, and leaves no operands behind.
    let file = X39File {
        statements: vec![
            assign("out", Value::Array(vec![])),
            Statement::ForLoop(ForLoopStatement {
                ident: "x".to_string(),
                over: ForLoopInstruction::Value(Value::Array(vec![
                    num(10.0),
                    num(20.0),
                    num(30.0),
                ])),
                code: vec![Statement::Assignment(AssignmentStatement {
                    ident: "out".to_string(),
                    value: AssignmentType::Append(AssignStatementData::Value(Value::Null)),
                })],
            }),
        ],
    };
    // The body appends a marker per iteration; x itself carries the element.
    let mut state = compile(file).unwrap();
    let mut stack = VmStack::new();
    let mut controller = NoController { calls: 0 };
    run(&mut state, &mut stack, &mut controller).unwrap();
    let out = stack.get_variable("out").unwrap();
    match out {
        VmValue::Array(items) => assert_eq!(items.len(), 3),
        _ => panic!("out is not an array"),
    }
    let x = stack.get_variable("x").unwrap();
    assert!(x.eq_value(&VmValue::Number(30.0f64.to_bits())));
    assert_eq!(stack.data.len(), 0);
    assert_eq!(controller.calls, 0);
}

#[test]
fn type_gated_abort_never_reaches_controller() {
    // abort x where x is not a job: VariableTypeMismatch, zero controller calls.
    let file = X39File {
        statements: vec![
            assign("x", Value::Array(vec![num(1.0)])),
            Statement::Abort("x".to_string()),
        ],
    };
    let mut state = compile(file).unwrap();
    let mut stack = VmStack::new();
    let mut controller = NoController { calls: 0 };
    let outcome = run(&mut state, &mut stack, &mut controller);
    assert!(matches!(outcome, Err(VmError::VariableTypeMismatch)));
    assert_eq!(controller.calls, 0);
}

#[test]
fn await_suspends_and_resumes_on_pending_job() {
    // j is started, its result is not ready once, then ready: the await
    // reports suspended, retries, and binds the result.
    let file = X39File {
        statements: vec![Statement::Assignment(AssignmentStatement {
            ident: "r".to_string(),
            value: AssignmentType::Assign(AssignStatementData::Await(
                AwaitCallOrIdentProduction::Call(Call {
                    ident: "work".to_string(),
                    value: None,
                }),
            )),
        })],
    };
    let mut state = compile(file).unwrap();
    let mut stack = VmStack::new();
    let mut controller = ScriptController::new(VmValue::Number(42.0f64.to_bits()));
    controller.pending = 1;
    let mut suspended = 0;
    while !state.is_done() {
        match state.step(&mut stack, &mut controller).unwrap() {
            VmExecResult::Empty => {}
            VmExecResult::Suspended => suspended += 1,
        }
    }
    assert_eq!(suspended, 1);
    let bound = stack.get_variable("r").unwrap();
    assert!(bound.eq_value(&VmValue::Number(42.0f64.to_bits())));
}

#[test]
fn abort_all_cancels_started_jobs() {
    // list = []; list += start f(); abort all list;
    let file = X39File {
        statements: vec![
            assign("list", Value::Array(vec![])),
            Statement::Assignment(AssignmentStatement {
                ident: "list".to_string(),
                value: AssignmentType::Append(AssignStatementData::Start(Call {
                    ident: "f".to_string(),
                    value: None,
                })),
            }),
            Statement::AbortAll("list".to_string()),
        ],
    };
    let mut state = compile(file).unwrap();
    let mut stack = VmStack::new();
    let mut controller = ScriptController::new(VmValue::Null);
    run(&mut state, &mut stack, &mut controller).unwrap();
    assert_eq!(controller.cancelled.len(), 1);
}

#[test]
fn variable_not_found_is_reported() {
    let file = X39File {
        statements: vec![Statement::Print("missing".to_string())],
    };
    let mut state = compile(file).unwrap();
    let mut stack = VmStack::new();
    let mut controller = NoController { calls: 0 };
    let outcome = run(&mut state, &mut stack, &mut controller);
    assert!(matches!(outcome, Err(VmError::VariableNotFound)));
}

#[test]
fn arg_shape_error_on_malformed_instruction() {
    let mut state = VmState::new();
    state.push_instruction(Instruction {
        opcode: OpCode::PushValueU16,
        arg: InstructionArg::Empty,
    });
    let mut stack = VmStack::new();
    let mut controller = NoController { calls: 0 };
    let outcome = state.step(&mut stack, &mut controller);
    assert!(matches!(outcome, Err(VmError::ArgShapeError)));
}

#[test]
fn jump_range_error_on_backward_underflow() {
    let mut state = VmState::new();
    state.push_instruction(Instruction::op_jump(-5));
    let mut stack = VmStack::new();
    let mut controller = NoController { calls: 0 };
    let outcome = state.step(&mut stack, &mut controller);
    assert!(matches!(outcome, Err(VmError::JumpRangeError)));
}

#[test]
fn stack_type_mismatch_on_non_boolean_condition() {
    let mut state = VmState::new();
    state.push_instruction(Instruction::op_push_null());
    state.push_instruction(Instruction::op_jump_if_false(1));
    let mut stack = VmStack::new();
    let mut controller = NoController { calls: 0 };
    assert!(matches!(
        state.step(&mut stack, &mut controller),
        Ok(VmExecResult::Empty)
    ));
    let outcome = state.step(&mut stack, &mut controller);
    assert!(matches!(outcome, Err(VmError::StackTypeMismatch)));
}

#[test]
fn stack_underflow_on_empty_pop() {
    let mut state = VmState::new();
    state.push_instruction(Instruction::op_pop());
    let mut stack = VmStack::new();
    let mut controller = NoController { calls: 0 };
    let outcome = state.step(&mut stack, &mut controller);
    assert!(matches!(outcome, Err(VmError::StackUnderflow)));
}

#[test]
fn swap2_reverses_top_two() {
    let mut state = VmState::new();
    state.push_instruction(Instruction::op_push_true());
    state.push_instruction(Instruction::op_push_null());
    state.push_instruction(Instruction {
        opcode: OpCode::Swap2,
        arg: InstructionArg::Empty,
    });
    let mut stack = VmStack::new();
    let mut controller = NoController { calls: 0 };
    run(&mut state, &mut stack, &mut controller).unwrap();
    assert!(stack.data[0].is_null());
    assert!(stack.data[1].is_boolean());
}

#[test]
fn exit_forces_done_and_skips_the_rest() {
    let file = X39File {
        statements: vec![
            Statement::Exit,
            assign("after", Value::Boolean(true)),
        ],
    };
    let mut state = compile(file).unwrap();
    let mut stack = VmStack::new();
    let mut controller = NoController { calls: 0 };
    run(&mut state, &mut stack, &mut controller).unwrap();
    assert!(stack.get_variable("after").is_none());
}

#[test]
fn serialization_round_trip_of_compiled_program() {
    // encode then decode of a compiled program reproduces an equal value
    // pool, instruction stream and pointer.
    let file = X39File {
        statements: vec![
            assign("a", Value::Array(vec![num(1.5), num(2.0)])),
            assign(
                "o",
                Value::Object(vec![
                    x39vm::assembler::ast::Property {
                        key: "k".to_string(),
                        value: Value::String("v\u{00e9}".to_string()),
                    },
                ]),
            ),
            Statement::Assignment(AssignmentStatement {
                ident: "j".to_string(),
                value: AssignmentType::Assign(AssignStatementData::Start(Call {
                    ident: "f".to_string(),
                    value: Some(CallValue::Ident("a".to_string())),
                })),
            }),
        ],
    };
    let state = compile(file).unwrap();
    let bytes = serialize_vm_state(&state);
    let back = deserialize_vm_state(bytes.as_slice()).unwrap();
    assert_eq!(back.instructions(), state.instructions());
    assert_eq!(back.instruction_index, state.instruction_index);
    assert_eq!(back.value_list.len(), state.value_list.len());
    for (left, right) in back.value_list.iter().zip(state.value_list.iter()) {
        assert!(left.eq_value(right));
    }
}

#[test]
fn serialization_round_trip_of_every_value_shape() {
    let value = VmValue::Object(vec![
        x39vm::machine::memory::VmPair {
            key: "null".to_string(),
            value: VmValue::Null,
        },
        x39vm::machine::memory::VmPair {
            key: "nested".to_string(),
            value: VmValue::Array(vec![
                VmValue::Number(3.25f64.to_bits()),
                VmValue::Boolean(false),
                VmValue::String("text".to_string()),
                VmValue::Job(7),
            ]),
        },
    ]);
    let mut state = VmState::new();
    state.value_list.push(value);
    state.push_instruction(Instruction::op_exit());
    let bytes = serialize_vm_state(&state);
    let back = deserialize_vm_state(bytes.as_slice()).unwrap();
    assert!(back.value_list[0].eq_value(&state.value_list[0]));
    assert_eq!(back.instructions(), state.instructions());
}

#[test]
fn deserialization_rejects_truncated_input() {
    let mut state = VmState::new();
    state.push_instruction(Instruction::op_exit());
    let bytes = serialize_vm_state(&state);
    let truncated = &bytes[..bytes.len() - 1];
    assert!(deserialize_vm_state(truncated).is_none());
}

#[test]
fn number_codec_agrees_with_double_bits() {
    assert_eq!(number_bits(0), 0.0f64.to_bits());
    assert_eq!(number_bits(1), 1.0f64.to_bits());
    assert_eq!(number_bits(20), 20.0f64.to_bits());
    assert_eq!(number_bits(12345678), 12345678.0f64.to_bits());
    assert_eq!(number_index(7.0f64.to_bits()), Some(7));
    assert_eq!(number_index(0.0f64.to_bits()), Some(0));
    assert_eq!(number_index(2.5f64.to_bits()), None);
    assert_eq!(number_index((-3.0f64).to_bits()), None);
    assert_eq!(number_index(f64::NAN.to_bits()), None);
    assert_eq!(signed_number_bits(-3), Some((-3.0f64).to_bits()));
    assert_eq!(signed_number_bits(19), Some(19.0f64.to_bits()));
    assert_eq!(signed_number_bits(1 << 60), None);
}
#[test]
fn empty_containers_compile_and_run() {
    let file = X39File {
        statements: vec![
            assign("a", Value::Array(vec![])),
            assign("o", Value::Object(vec![])),
        ],
    };
    let mut state = compile(file).unwrap();
    let mut stack = VmStack::new();
    let mut controller = NoController { calls: 0 };
    run(&mut state, &mut stack, &mut controller).unwrap();
    assert!(stack.get_variable("a").unwrap().eq_value(&VmValue::Array(vec![])));
    assert!(stack
        .get_variable("o")
        .unwrap()
        .eq_value(&VmValue::Object(vec![])));
}

#[test]
fn for_loop_over_object_binds_property_values() {
    // Iterating an object hands the loop variable the property values.
    let file = X39File {
        statements: vec![
            assign(
                "o",
                Value::Object(vec![
                    Property {
                        key: "first".to_string(),
                        value: num(1.0),
                    },
                    Property {
                        key: "second".to_string(),
                        value: num(2.0),
                    },
                ]),
            ),
            Statement::ForLoop(ForLoopStatement {
                ident: "x".to_string(),
                over: ForLoopInstruction::Ident("o".to_string()),
                code: vec![],
            }),
        ],
    };
    let mut state = compile(file).unwrap();
    let mut stack = VmStack::new();
    let mut controller = NoController { calls: 0 };
    run(&mut state, &mut stack, &mut controller).unwrap();
    let x = stack.get_variable("x").unwrap();
    assert!(x.eq_value(&VmValue::Number(2.0f64.to_bits())));
    assert_eq!(stack.data.len(), 0);
}

#[test]
fn await_all_requires_array_of_jobs() {
    // await all x where x holds plain numbers: the typed getter rejects it
    // before the controller is involved.
    let file = X39File {
        statements: vec![
            assign("x", Value::Array(vec![num(1.0)])),
            Statement::Await(AwaitStatement::AwaitAll("x".to_string())),
        ],
    };
    let mut state = compile(file).unwrap();
    let mut stack = VmStack::new();
    let mut controller = NoController { calls: 0 };
    let outcome = run(&mut state, &mut stack, &mut controller);
    assert!(matches!(outcome, Err(VmError::VariableTypeMismatch)));
    assert_eq!(controller.calls, 0);
}

#[test]
fn empty_array_is_an_array_of_jobs() {
    // An array with no elements counts as an array of jobs.
    assert!(VmValue::Array(vec![]).is_array_of_jobs());
    assert!(!VmValue::Array(vec![VmValue::Null]).is_array_of_jobs());
    assert!(VmValue::Array(vec![VmValue::Job(1), VmValue::Job(2)]).is_array_of_jobs());
}
