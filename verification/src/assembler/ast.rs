use vstd::prelude::*;

verus! {

/// A parsed program: the ordered statements of one source file.
#[derive(Debug)]
pub struct X39File {
    pub statements: Vec<Statement>,
}

/// One statement of the language.
#[derive(Debug)]
pub enum Statement {
    Await(AwaitStatement),
    Abort(String),
    AbortAll(String),
    Exit,
    Comment,
    Start(Call),
    IfElse(IfElseStatement),
    ForLoop(ForLoopStatement),
    Assignment(AssignmentStatement),
    Print(String),
}

/// `for <ident> in <over> { <code> }`.
#[derive(Debug)]
pub struct ForLoopStatement {
    pub ident: String,
    pub over: ForLoopInstruction,
    pub code: Vec<Statement>,
}

/// What a for loop iterates over.
#[derive(Debug)]
pub enum ForLoopInstruction {
    Ident(String),
    Await(AwaitCallOrIdentProduction),
    Value(Value),
}

/// Whether an assignment binds or appends.
#[derive(Debug)]
pub enum AssignmentType {
    Append(AssignStatementData),
    Assign(AssignStatementData),
}

/// `<ident> = <value>` or `<ident> += <value>`.
#[derive(Debug)]
pub struct AssignmentStatement {
    pub ident: String,
    pub value: AssignmentType,
}

/// The right-hand side of an assignment.
#[derive(Debug)]
pub enum AssignStatementData {
    Value(Value),
    Await(AwaitCallOrIdentProduction),
    Start(Call),
}

/// An await statement: one job, any of an array, or all of an array.
#[derive(Debug)]
pub enum AwaitStatement {
    AwaitAny(String),
    AwaitAll(String),
    AwaitCallOrIdent(AwaitCallOrIdentProduction),
}

/// What a plain await awaits: a fresh call or a bound job.
#[derive(Debug)]
pub enum AwaitCallOrIdentProduction {
    Call(Call),
    Ident(String),
}

/// An if/else chain; the else part may itself be another chain.
#[derive(Debug)]
pub struct IfElseStatement {
    pub if_statement: IfStatement,
    pub else_statement: Option<ElseStatement>,
}

/// The condition and body of one if clause.
#[derive(Debug)]
pub struct IfStatement {
    pub condition: IfStatementCondition,
    pub code: Vec<Statement>,
}

/// An if condition: an await expression or a bare identifier.
#[derive(Debug)]
pub enum IfStatementCondition {
    Await(AwaitCallOrIdentProduction),
    Ident(String),
}

/// What follows an `else`: a block, or another if/else chain.
#[derive(Debug)]
pub enum ElseStatement {
    Code(Vec<Statement>),
    IfElse(Box<IfElseStatement>),
}

/// A literal value of the language.
///
/// Numbers carry the 64 raw bits of an IEEE-754 double; a numeric range
/// carries its bounds as the integers they truncate to.
#[derive(Debug)]
pub enum Value {
    NumericRange(NumericRange),
    Number(u64),
    Null,
    String(String),
    Boolean(bool),
    Object(Vec<Property>),
    Array(Vec<Value>),
}

/// One key/value property of an object literal.
#[derive(Debug)]
pub struct Property {
    pub key: String,
    pub value: Value,
}

/// A function call: a name and at most one argument.
#[derive(Debug)]
pub struct Call {
    pub ident: String,
    pub value: Option<CallValue>,
}

/// The argument of a call: a bound identifier or a literal value.
#[derive(Debug)]
pub enum CallValue {
    Ident(String),
    Value(Value),
}

/// A half-open integer range, `from` inclusive to `to` exclusive.
#[derive(Debug)]
pub struct NumericRange {
    pub from: i64,
    pub to: i64,
}

} // verus!
