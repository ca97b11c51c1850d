use x39vm::assembler::ast::{
    AssignStatementData, AssignmentStatement, AssignmentType, AwaitCallOrIdentProduction,
    AwaitStatement, Call, CallValue, ElseStatement, ForLoopInstruction, ForLoopStatement,
    IfElseStatement, IfStatement, IfStatementCondition, NumericRange, Property, Statement, Value,
    X39File,
};
use x39vm::assembler::compiler::compile;
use x39vm::machine::memory::Instruction;

fn num(value: f64) -> Value {
    Value::Number(value.to_bits())
}

fn no_arg_call(name: &str) -> Call {
    Call {
        ident: name.to_string(),
        value: None,
    }
}

fn await_call(name: &str) -> AwaitCallOrIdentProduction {
    AwaitCallOrIdentProduction::Call(no_arg_call(name))
}

fn if_clause(condition: IfStatementCondition, code: Vec<Statement>) -> IfStatement {
    IfStatement { condition, code }
}

#[test]
fn it_works() {
    assert_eq!(2 + 2, 4);
}

#[test]
fn test_file1() -> Result<(), Box<dyn std::error::Error>> {
    let object = Value::Object(vec![
        Property {
            key: "foo".to_string(),
            value: Value::Boolean(false),
        },
        Property {
            key: "bar".to_string(),
            value: Value::String("test".to_string()),
        },
        Property {
            key: "foobar".to_string(),
            value: num(1.2),
        },
        Property {
            key: "other".to_string(),
            value: Value::Null,
        },
        Property {
            key: "array".to_string(),
            value: Value::Array(vec![num(1.0), num(2.0), num(3.0), num(4.0), num(5.0), num(6.0)]),
        },
    ]);
    let else_tail = vec![
        Statement::Assignment(AssignmentStatement {
            ident: "collection".to_string(),
            value: AssignmentType::Assign(AssignStatementData::Await(
                AwaitCallOrIdentProduction::Call(Call {
                    ident: "generateFunc".to_string(),
                    value: Some(CallValue::Value(num(12.0))),
                }),
            )),
        }),
        Statement::Assignment(AssignmentStatement {
            ident: "list".to_string(),
            value: AssignmentType::Assign(AssignStatementData::Value(Value::Array(vec![]))),
        }),
        Statement::ForLoop(ForLoopStatement {
            ident: "it".to_string(),
            over: ForLoopInstruction::Ident("collection".to_string()),
            code: vec![Statement::Assignment(AssignmentStatement {
                ident: "list".to_string(),
                value: AssignmentType::Append(AssignStatementData::Start(Call {
                    ident: "handleIt".to_string(),
                    value: Some(CallValue::Ident("it".to_string())),
                })),
            })],
        }),
        Statement::Await(AwaitStatement::AwaitAll("list".to_string())),
        Statement::Assignment(AssignmentStatement {
            ident: "list".to_string(),
            value: AssignmentType::Assign(AssignStatementData::Value(Value::Array(vec![]))),
        }),
        Statement::ForLoop(ForLoopStatement {
            ident: "it".to_string(),
            over: ForLoopInstruction::Value(Value::NumericRange(NumericRange { from: 0, to: 20 })),
            code: vec![Statement::Assignment(AssignmentStatement {
                ident: "list".to_string(),
                value: AssignmentType::Append(AssignStatementData::Start(Call {
                    ident: "handleIt".to_string(),
                    value: Some(CallValue::Ident("it".to_string())),
                })),
            })],
        }),
        Statement::Await(AwaitStatement::AwaitAny("list".to_string())),
        Statement::AbortAll("list".to_string()),
    ];
    let file = X39File {
        statements: vec![
            Statement::Assignment(AssignmentStatement {
                ident: "variable".to_string(),
                value: AssignmentType::Assign(AssignStatementData::Start(Call {
                    ident: "func".to_string(),
                    value: Some(CallValue::Value(object)),
                })),
            }),
            Statement::Await(AwaitStatement::AwaitCallOrIdent(
                AwaitCallOrIdentProduction::Ident("variable".to_string()),
            )),
            Statement::Assignment(AssignmentStatement {
                ident: "result".to_string(),
                value: AssignmentType::Assign(AssignStatementData::Await(
                    AwaitCallOrIdentProduction::Call(Call {
                        ident: "func2".to_string(),
                        value: Some(CallValue::Ident("variable".to_string())),
                    }),
                )),
            }),
            Statement::IfElse(IfElseStatement {
                if_statement: if_clause(
                    IfStatementCondition::Await(AwaitCallOrIdentProduction::Call(Call {
                        ident: "conditionFunc".to_string(),
                        value: Some(CallValue::Ident("result".to_string())),
                    })),
                    vec![Statement::Exit],
                ),
                else_statement: Some(ElseStatement::IfElse(Box::new(IfElseStatement {
                    if_statement: if_clause(
                        IfStatementCondition::Await(AwaitCallOrIdentProduction::Call(Call {
                            ident: "conditionFunc2".to_string(),
                            value: Some(CallValue::Ident("result".to_string())),
                        })),
                        vec![Statement::Exit],
                    ),
                    else_statement: Some(ElseStatement::Code(else_tail)),
                }))),
            }),
        ],
    };
    let vm_state = compile(file).map_err(|e| format!("{:?}", e))?;
    assert!(vm_state.instructions().len() > 0);
    Ok(())
}

#[test]
fn test_file2() -> Result<(), Box<dyn std::error::Error>> {
    let file = X39File {
        statements: vec![
            Statement::Assignment(AssignmentStatement {
                ident: "list".to_string(),
                value: AssignmentType::Assign(AssignStatementData::Value(Value::Array(vec![]))),
            }),
            Statement::ForLoop(ForLoopStatement {
                ident: "it".to_string(),
                over: ForLoopInstruction::Value(Value::NumericRange(NumericRange {
                    from: 0,
                    to: 20,
                })),
                code: vec![Statement::Assignment(AssignmentStatement {
                    ident: "list".to_string(),
                    value: AssignmentType::Append(AssignStatementData::Start(Call {
                        ident: "handleIt".to_string(),
                        value: Some(CallValue::Ident("it".to_string())),
                    })),
                })],
            }),
        ],
    };
    let vm_state = compile(file).map_err(|e| format!("{:?}", e))?;
    assert!(vm_state.instructions().len() > 0);
    Ok(())
}

#[test]
fn test_file3() -> Result<(), Box<dyn std::error::Error>> {
    let file = X39File {
        statements: vec![Statement::IfElse(IfElseStatement {
            if_statement: if_clause(
                IfStatementCondition::Await(await_call("fancy1")),
                vec![Statement::Exit],
            ),
            else_statement: Some(ElseStatement::IfElse(Box::new(IfElseStatement {
                if_statement: if_clause(
                    IfStatementCondition::Await(await_call("fancy2")),
                    vec![Statement::Exit],
                ),
                else_statement: Some(ElseStatement::Code(vec![Statement::Exit])),
            }))),
        })],
    };
    let vm_state = compile(file).map_err(|e| format!("{:?}", e))?;
    assert!(vm_state.instructions().len() > 0);
    Ok(())
}

#[test]
fn test_file4() -> Result<(), Box<dyn std::error::Error>> {
    let file = X39File {
        statements: vec![
            Statement::Comment,
            Statement::IfElse(IfElseStatement {
                if_statement: if_clause(
                    IfStatementCondition::Await(await_call("conditionFunc")),
                    vec![Statement::Exit],
                ),
                else_statement: Some(ElseStatement::Code(vec![
                    Statement::Comment,
                    Statement::Assignment(AssignmentStatement {
                        ident: "collection".to_string(),
                        value: AssignmentType::Assign(AssignStatementData::Await(
                            AwaitCallOrIdentProduction::Call(Call {
                                ident: "generateFunc".to_string(),
                                value: Some(CallValue::Value(num(12.0))),
                            }),
                        )),
                    }),
                    Statement::Assignment(AssignmentStatement {
                        ident: "list".to_string(),
                        value: AssignmentType::Assign(AssignStatementData::Value(Value::Array(
                            vec![],
                        ))),
                    }),
                    Statement::ForLoop(ForLoopStatement {
                        ident: "it".to_string(),
                        over: ForLoopInstruction::Ident("collection".to_string()),
                        code: vec![Statement::Assignment(AssignmentStatement {
                            ident: "list".to_string(),
                            value: AssignmentType::Append(AssignStatementData::Start(Call {
                                ident: "handleIt".to_string(),
                                value: Some(CallValue::Ident("it".to_string())),
                            })),
                        })],
                    }),
                    Statement::Await(AwaitStatement::AwaitAll("list".to_string())),
                    Statement::Assignment(AssignmentStatement {
                        ident: "list".to_string(),
                        value: AssignmentType::Assign(AssignStatementData::Value(Value::Array(
                            vec![],
                        ))),
                    }),
                    Statement::ForLoop(ForLoopStatement {
                        ident: "it".to_string(),
                        over: ForLoopInstruction::Value(Value::NumericRange(NumericRange {
                            from: 0,
                            to: 20,
                        })),
                        code: vec![Statement::Assignment(AssignmentStatement {
                            ident: "list".to_string(),
                            value: AssignmentType::Append(AssignStatementData::Start(Call {
                                ident: "handleIt".to_string(),
                                value: Some(CallValue::Ident("it".to_string())),
                            })),
                        })],
                    }),
                    Statement::Await(AwaitStatement::AwaitAny("list".to_string())),
                    Statement::AbortAll("list".to_string()),
                ])),
            }),
        ],
    };
    let vm_state = compile(file).map_err(|e| format!("{:?}", e))?;
    assert!(vm_state.instructions().len() > 0);
    Ok(())
}

#[test]
fn test_if_else() -> Result<(), Box<dyn std::error::Error>> {
    let file = X39File {
        statements: vec![
            Statement::Exit,
            Statement::Exit,
            Statement::Exit,
            Statement::Exit,
            Statement::IfElse(IfElseStatement {
                if_statement: if_clause(
                    IfStatementCondition::Await(await_call("fancy1")),
                    vec![Statement::Exit],
                ),
                else_statement: Some(ElseStatement::Code(vec![Statement::Exit])),
            }),
            Statement::Exit,
        ],
    };
    let vm_state = compile(file).map_err(|e| format!("{:?}", e))?;
    let expected_code = vec![
        // exit;
        Instruction::op_push_null(),
        Instruction::op_exit(),
        // exit;
        Instruction::op_push_null(),
        Instruction::op_exit(),
        // exit;
        Instruction::op_push_null(),
        Instruction::op_exit(),
        // exit;
        Instruction::op_push_null(),
        Instruction::op_exit(),
        // await fancy1()
        Instruction::op_push_value_u16(0),
        Instruction::op_call_no_arg(),
        Instruction::op_await(),
        // if ... { ... }
        Instruction::op_jump_if_false(3),
        // exit;
        Instruction::op_push_null(),
        Instruction::op_exit(),
        // if ... { ... }
        Instruction::op_jump(2),
        // else { ... }
        // exit;
        Instruction::op_push_null(),
        Instruction::op_exit(),
        // exit;
        Instruction::op_push_null(),
        Instruction::op_exit(),
    ];
    assert_eq!(vm_state.instructions(), expected_code);
    Ok(())
}

#[test]
fn test_if_else_if_else_if_else() -> Result<(), Box<dyn std::error::Error>> {
    let file = X39File {
        statements: vec![
            Statement::Exit,
            Statement::Exit,
            Statement::Exit,
            Statement::Exit,
            Statement::IfElse(IfElseStatement {
                if_statement: if_clause(
                    IfStatementCondition::Await(await_call("fancy1")),
                    vec![Statement::Exit],
                ),
                else_statement: Some(ElseStatement::IfElse(Box::new(IfElseStatement {
                    if_statement: if_clause(
                        IfStatementCondition::Await(await_call("fancy1")),
                        vec![Statement::Exit],
                    ),
                    else_statement: Some(ElseStatement::IfElse(Box::new(IfElseStatement {
                        if_statement: if_clause(
                            IfStatementCondition::Await(await_call("fancy1")),
                            vec![Statement::Exit],
                        ),
                        else_statement: Some(ElseStatement::Code(vec![Statement::Exit])),
                    }))),
                }))),
            }),
            Statement::Exit,
        ],
    };
    let vm_state = compile(file).map_err(|e| format!("{:?}", e))?;
    let expected_code = vec![
        // exit;
        Instruction::op_push_null(),
        Instruction::op_exit(),
        // exit;
        Instruction::op_push_null(),
        Instruction::op_exit(),
        // exit;
        Instruction::op_push_null(),
        Instruction::op_exit(),
        // exit;
        Instruction::op_push_null(),
        Instruction::op_exit(),
        // await fancy1()
        Instruction::op_push_value_u16(0),
        Instruction::op_call_no_arg(),
        Instruction::op_await(),
        // if ... { ... }
        Instruction::op_jump_if_false(3),
        // exit;
        Instruction::op_push_null(),
        Instruction::op_exit(),
        // if ... { ... }
        Instruction::op_jump(16),
        // await fancy1()
        Instruction::op_push_value_u16(0),
        Instruction::op_call_no_arg(),
        Instruction::op_await(),
        // if ... { ... }
        Instruction::op_jump_if_false(3),
        // exit;
        Instruction::op_push_null(),
        Instruction::op_exit(),
        // if ... { ... }
        Instruction::op_jump(9),
        // await fancy1()
        Instruction::op_push_value_u16(0),
        Instruction::op_call_no_arg(),
        Instruction::op_await(),
        // if ... { ... }
        Instruction::op_jump_if_false(3),
        // exit;
        Instruction::op_push_null(),
        Instruction::op_exit(),
        // if ... { ... }
        Instruction::op_jump(2),
        // else { ... }
        // exit;
        Instruction::op_push_null(),
        Instruction::op_exit(),
        // exit;
        Instruction::op_push_null(),
        Instruction::op_exit(),
    ];
    assert_eq!(vm_state.instructions(), expected_code);
    Ok(())
}

#[test]
fn constant_dedup_shares_one_pool_slot() -> Result<(), Box<dyn std::error::Error>> {
    // Two assignments referencing the same string literal: the pool holds
    // the literal once and both pushes use the same index.
    let file = X39File {
        statements: vec![
            Statement::Assignment(AssignmentStatement {
                ident: "a".to_string(),
                value: AssignmentType::Assign(AssignStatementData::Value(Value::String(
                    "shared".to_string(),
                ))),
            }),
            Statement::Assignment(AssignmentStatement {
                ident: "b".to_string(),
                value: AssignmentType::Assign(AssignStatementData::Value(Value::String(
                    "shared".to_string(),
                ))),
            }),
        ],
    };
    let vm_state = compile(file).map_err(|e| format!("{:?}", e))?;
    // Pool: "a", "shared", "b" and nothing more.
    assert_eq!(vm_state.value_list.len(), 3);
    let code = vm_state.instructions();
    // Each assignment pushes the literal then the name: the literal pushes
    // of both assignments carry the same pool index.
    assert_eq!(code[0], Instruction::op_push_value_u16(1));
    assert_eq!(code[3], Instruction::op_push_value_u16(1));
    Ok(())
}

#[test]
fn range_unrolls_half_open() -> Result<(), Box<dyn std::error::Error>> {
    // for x in 3..6 unrolls exactly the integers 3, 4, 5.
    let file = X39File {
        statements: vec![Statement::Assignment(AssignmentStatement {
            ident: "r".to_string(),
            value: AssignmentType::Assign(AssignStatementData::Value(Value::NumericRange(
                NumericRange { from: 3, to: 6 },
            ))),
        })],
    };
    let vm_state = compile(file).map_err(|e| format!("{:?}", e))?;
    // Pool: "r", 3.0, 4.0, 5.0.
    assert_eq!(vm_state.value_list.len(), 4);
    Ok(())
}

#[test]
fn compile_rejects_oversized_range_bound() {
    let too_big: i64 = 1 << 60;
    let file = X39File {
        statements: vec![Statement::Assignment(AssignmentStatement {
            ident: "r".to_string(),
            value: AssignmentType::Assign(AssignStatementData::Value(Value::NumericRange(
                NumericRange {
                    from: too_big,
                    to: too_big + 1,
                },
            ))),
        })],
    };
    assert!(compile(file).is_err());
}
