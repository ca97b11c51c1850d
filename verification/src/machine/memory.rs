use vstd::prelude::*;

use crate::machine::opcode::OpCode;

verus! {

/// A key/value property of an object value.
#[derive(Debug)]
pub struct VmPair {
    pub key: String,
    pub value: VmValue,
}

/// A runtime value of the virtual machine.
///
/// Numbers are carried as the 64 raw bits of an IEEE-754 double, so that the
/// machine itself stays free of floating-point arithmetic; jobs are carried as
/// the 128 raw bits of the globally unique handle minted by the controller.
#[derive(Debug)]
pub enum VmValue {
    Null,
    String(String),
    Number(u64),
    Array(Vec<VmValue>),
    Boolean(bool),
    Object(Vec<VmPair>),
    Job(u128),
}

/// Mathematical shape of a [`VmPair`].
pub struct PairModel {
    pub key: Seq<char>,
    pub value: ValueModel,
}

/// Mathematical shape of a [`VmValue`].
pub enum ValueModel {
    Null,
    String(Seq<char>),
    Number(u64),
    Array(Seq<ValueModel>),
    Boolean(bool),
    Object(Seq<PairModel>),
    Job(u128),
}

impl VmPair {
    /// Mathematical model of this property.
    pub open spec fn model(&self) -> PairModel
        decreases self, 1int,
    {
        PairModel { key: self.key@, value: self.value.model() }
    }
}

impl VmValue {
    /// Mathematical model of this value.
    pub open spec fn model(&self) -> ValueModel
        decreases self, 1int,
    {
        match self {
            VmValue::Null => ValueModel::Null,
            VmValue::String(s) => ValueModel::String(s@),
            VmValue::Number(n) => ValueModel::Number(*n),
            VmValue::Array(a) => ValueModel::Array(
                {
                    proof {
                        assert(decreases_to!(*a => a@));
                    }
                    Self::models_of(a@)
                },
            ),
            VmValue::Boolean(b) => ValueModel::Boolean(*b),
            VmValue::Object(o) => ValueModel::Object(
                {
                    proof {
                        assert(decreases_to!(*o => o@));
                    }
                    Self::pair_models_of(o@)
                },
            ),
            VmValue::Job(j) => ValueModel::Job(*j),
        }
    }

    /// Models of a sequence of values, elementwise.
    pub open spec fn models_of(s: Seq<VmValue>) -> Seq<ValueModel>
        decreases s, 0int,
    {
        if s.len() == 0 {
            Seq::empty()
        } else {
            Self::models_of(s.drop_last()).push(s.last().model())
        }
    }

    /// Models of a sequence of properties, elementwise.
    pub open spec fn pair_models_of(s: Seq<VmPair>) -> Seq<PairModel>
        decreases s, 0int,
    {
        if s.len() == 0 {
            Seq::empty()
        } else {
            Self::pair_models_of(s.drop_last()).push(s.last().model())
        }
    }
}

/// [`VmValue::models_of`] maps the model over the sequence, elementwise.
pub broadcast proof fn lemma_models_of(s: Seq<VmValue>)
    ensures
        (#[trigger] VmValue::models_of(s)).len() == s.len(),
        forall|i: int| 0 <= i < s.len() ==> VmValue::models_of(s)[i] == s[i].model(),
    decreases s.len(),
{
    if s.len() > 0 {
        lemma_models_of(s.drop_last());
    }
}

/// [`VmValue::pair_models_of`] maps the model over the sequence, elementwise.
pub broadcast proof fn lemma_pair_models_of(s: Seq<VmPair>)
    ensures
        (#[trigger] VmValue::pair_models_of(s)).len() == s.len(),
        forall|i: int| 0 <= i < s.len() ==> VmValue::pair_models_of(s)[i] == s[i].model(),
    decreases s.len(),
{
    if s.len() > 0 {
        lemma_pair_models_of(s.drop_last());
    }
}

impl Clone for VmValue {
    /// Cloning preserves the mathematical model.
    #[verifier::loop_isolation(false)]
    fn clone(&self) -> (r: Self)
        ensures
            r.model() == self.model(),
        decreases *self,
    {
        match self {
            VmValue::Null => VmValue::Null,
            VmValue::String(s) => VmValue::String(s.clone()),
            VmValue::Number(n) => VmValue::Number(*n),
            VmValue::Boolean(b) => VmValue::Boolean(*b),
            VmValue::Job(j) => VmValue::Job(*j),
            VmValue::Array(a) => {
                let mut out: Vec<VmValue> = Vec::new();
                for i in 0..a.len()
                    invariant
                        out@.len() == i,
                        forall|j: int| 0 <= j < i ==> #[trigger] out@[j].model() == a@[j].model(),
                {
                    proof {
                        assert(decreases_to!(*self => *a));
                        assert(decreases_to!(*a => a@));
                        assert(decreases_to!(a@ => a@[i as int]));
                    }
                    out.push(a[i].clone());
                }
                let r = VmValue::Array(out);
                proof {
                    lemma_models_of(out@);
                    lemma_models_of(a@);
                    assert(VmValue::models_of(out@) =~= VmValue::models_of(a@));
                }
                r
            },
            VmValue::Object(o) => {
                let mut out: Vec<VmPair> = Vec::new();
                for i in 0..o.len()
                    invariant
                        out@.len() == i,
                        forall|j: int| 0 <= j < i ==> #[trigger] out@[j].model() == o@[j].model(),
                {
                    proof {
                        assert(decreases_to!(*self => *o));
                        assert(decreases_to!(*o => o@));
                        assert(decreases_to!(o@ => o@[i as int]));
                    }
                    out.push(VmPair { key: o[i].key.clone(), value: o[i].value.clone() });
                }
                let r = VmValue::Object(out);
                proof {
                    lemma_pair_models_of(out@);
                    lemma_pair_models_of(o@);
                    assert(VmValue::pair_models_of(out@) =~= VmValue::pair_models_of(o@));
                }
                r
            },
        }
    }
}

impl Clone for VmPair {
    /// Cloning preserves the mathematical model.
    fn clone(&self) -> (r: Self)
        ensures
            r.model() == self.model(),
    {
        VmPair { key: self.key.clone(), value: self.value.clone() }
    }
}

impl VmValue {
    /// Executable structural equality on values; the relation the constant
    /// pool deduplicates by is equality of models.
    #[verifier::loop_isolation(false)]
    pub fn eq_value(&self, other: &VmValue) -> (r: bool)
        ensures
            r == (self.model() == other.model()),
        decreases *self,
    {
        match (self, other) {
            (VmValue::Null, VmValue::Null) => true,
            (VmValue::String(x), VmValue::String(y)) => *x == *y,
            (VmValue::Number(x), VmValue::Number(y)) => x == y,
            (VmValue::Boolean(x), VmValue::Boolean(y)) => x == y,
            (VmValue::Job(x), VmValue::Job(y)) => x == y,
            (VmValue::Array(x), VmValue::Array(y)) => {
                if x.len() != y.len() {
                    proof {
                        lemma_models_of(x@);
                        lemma_models_of(y@);
                    }
                    return false;
                }
                for i in 0..x.len()
                    invariant
                        x@.len() == y@.len(),
                        forall|j: int| 0 <= j < i ==> #[trigger] x@[j].model() == y@[j].model(),
                {
                    proof {
                        assert(decreases_to!(*self => *x));
                        assert(decreases_to!(*x => x@));
                        assert(decreases_to!(x@ => x@[i as int]));
                    }
                    if !x[i].eq_value(&y[i]) {
                        proof {
                            lemma_models_of(x@);
                            lemma_models_of(y@);
                            assert(VmValue::models_of(x@)[i as int] != VmValue::models_of(
                                y@,
                            )[i as int]);
                        }
                        return false;
                    }
                }
                proof {
                    lemma_models_of(x@);
                    lemma_models_of(y@);
                    assert(VmValue::models_of(x@) =~= VmValue::models_of(y@));
                }
                true
            },
            (VmValue::Object(x), VmValue::Object(y)) => {
                if x.len() != y.len() {
                    proof {
                        lemma_pair_models_of(x@);
                        lemma_pair_models_of(y@);
                    }
                    return false;
                }
                for i in 0..x.len()
                    invariant
                        x@.len() == y@.len(),
                        forall|j: int| 0 <= j < i ==> #[trigger] x@[j].model() == y@[j].model(),
                {
                    proof {
                        assert(decreases_to!(*self => *x));
                        assert(decreases_to!(*x => x@));
                        assert(decreases_to!(x@ => x@[i as int]));
                    }
                    let keys_differ = !(x[i].key == y[i].key);
                    if keys_differ || !x[i].value.eq_value(&y[i].value) {
                        proof {
                            lemma_pair_models_of(x@);
                            lemma_pair_models_of(y@);
                            assert(VmValue::pair_models_of(x@)[i as int] != VmValue::pair_models_of(
                                y@,
                            )[i as int]);
                        }
                        return false;
                    }
                }
                proof {
                    lemma_pair_models_of(x@);
                    lemma_pair_models_of(y@);
                    assert(VmValue::pair_models_of(x@) =~= VmValue::pair_models_of(y@));
                }
                true
            },
            _ => false,
        }
    }
}


/// Coarse runtime classification used by the type-checked variable getter.
#[derive(Debug, PartialEq, Eq, Structural, Copy, Clone)]
pub enum VmValueType {
    Null,
    Array,
    ArrayOfJobs,
    Job,
}

/// Argument carried by an [`Instruction`].
#[derive(Debug, PartialEq, Eq, Structural, Copy, Clone)]
pub enum InstructionArg {
    Empty,
    Unsigned(u16),
    Signed(i16),
    Type(VmValueType),
}

impl InstructionArg {
    /// Extract a type argument; any other kind of argument is an error.
    pub fn get_vm_type(self) -> (r: Result<VmValueType, &'static str>)
        ensures
            self is Type ==> r == Ok::<VmValueType, &'static str>(self->Type_0),
            !(self is Type) ==> r is Err,
    {
        match self {
            InstructionArg::Empty => Err(
                "Instruction arg was expected to be Type arg but arg was Empty",
            ),
            InstructionArg::Unsigned(_) => Err(
                "Instruction arg was expected to be Type arg but arg was Unsigned",
            ),
            InstructionArg::Signed(_) => Err(
                "Instruction arg was expected to be Type arg but arg was Signed",
            ),
            InstructionArg::Type(t) => Ok(t),
        }
    }

    /// Extract a signed offset argument; any other kind of argument is an error.
    pub fn get_signed(self) -> (r: Result<i16, &'static str>)
        ensures
            self is Signed ==> r == Ok::<i16, &'static str>(self->Signed_0),
            !(self is Signed) ==> r is Err,
    {
        match self {
            InstructionArg::Empty => Err(
                "Instruction arg was expected to be Signed arg but arg was Empty",
            ),
            InstructionArg::Unsigned(_) => Err(
                "Instruction arg was expected to be Signed arg but arg was Unsigned",
            ),
            InstructionArg::Signed(signed) => Ok(signed),
            InstructionArg::Type(_) => Err(
                "Instruction arg was expected to be Signed arg but arg was Type",
            ),
        }
    }

    /// Extract an unsigned index argument; any other kind of argument is an error.
    pub fn get_unsigned(self) -> (r: Result<u16, &'static str>)
        ensures
            self is Unsigned ==> r == Ok::<u16, &'static str>(self->Unsigned_0),
            !(self is Unsigned) ==> r is Err,
    {
        match self {
            InstructionArg::Empty => Err(
                "Instruction arg was expected to be Signed arg but arg was Empty",
            ),
            InstructionArg::Unsigned(unsigned) => Ok(unsigned),
            InstructionArg::Signed(_) => Err(
                "Instruction arg was expected to be Signed arg but arg was Signed",
            ),
            InstructionArg::Type(_) => Err(
                "Instruction arg was expected to be Signed arg but arg was Type",
            ),
        }
    }
}

/// One instruction of the virtual machine: an opcode and its argument.
#[derive(Debug, PartialEq, Eq, Structural, Copy, Clone)]
pub struct Instruction {
    pub opcode: OpCode,
    pub arg: InstructionArg,
}

impl Instruction {
    /// An instruction without an argument.
    pub fn new1(op: OpCode) -> (r: Instruction)
        ensures
            r == (Instruction { opcode: op, arg: InstructionArg::Empty }),
    {
        Instruction { opcode: op, arg: InstructionArg::Empty }
    }

    /// An instruction with the given argument.
    pub fn new(opcode: OpCode, arg: InstructionArg) -> (r: Instruction)
        ensures
            r == (Instruction { opcode, arg }),
    {
        Instruction { opcode, arg }
    }

    pub fn op_pop() -> (r: Instruction)
        ensures
            r == (Instruction { opcode: OpCode::Pop, arg: InstructionArg::Empty }),
    {
        Instruction { opcode: OpCode::Pop, arg: InstructionArg::Empty }
    }

    pub fn op_push_value_u16(value_index: u16) -> (r: Instruction)
        ensures
            r == (Instruction {
                opcode: OpCode::PushValueU16,
                arg: InstructionArg::Unsigned(value_index),
            }),
    {
        Instruction { opcode: OpCode::PushValueU16, arg: InstructionArg::Unsigned(value_index) }
    }

    pub fn op_assign() -> (r: Instruction)
        ensures
            r == (Instruction { opcode: OpCode::Assign, arg: InstructionArg::Empty }),
    {
        Instruction { opcode: OpCode::Assign, arg: InstructionArg::Empty }
    }

    pub fn op_get_variable_of_type(value_type: VmValueType) -> (r: Instruction)
        ensures
            r == (Instruction {
                opcode: OpCode::GetVariableOfType,
                arg: InstructionArg::Type(value_type),
            }),
    {
        Instruction { opcode: OpCode::GetVariableOfType, arg: InstructionArg::Type(value_type) }
    }

    pub fn op_append_array_push() -> (r: Instruction)
        ensures
            r == (Instruction { opcode: OpCode::AppendArrayPush, arg: InstructionArg::Empty }),
    {
        Instruction { opcode: OpCode::AppendArrayPush, arg: InstructionArg::Empty }
    }

    pub fn op_append_property_push() -> (r: Instruction)
        ensures
            r == (Instruction { opcode: OpCode::AppendPropertyPush, arg: InstructionArg::Empty }),
    {
        Instruction { opcode: OpCode::AppendPropertyPush, arg: InstructionArg::Empty }
    }

    pub fn op_jump_iterate(index: i16) -> (r: Instruction)
        ensures
            r == (Instruction { opcode: OpCode::JumpIterate, arg: InstructionArg::Signed(index) }),
    {
        Instruction { opcode: OpCode::JumpIterate, arg: InstructionArg::Signed(index) }
    }

    pub fn op_jump(index: i16) -> (r: Instruction)
        ensures
            r == (Instruction { opcode: OpCode::Jump, arg: InstructionArg::Signed(index) }),
    {
        Instruction { opcode: OpCode::Jump, arg: InstructionArg::Signed(index) }
    }

    pub fn op_jump_if_false(index: i16) -> (r: Instruction)
        ensures
            r == (Instruction { opcode: OpCode::JumpIfFalse, arg: InstructionArg::Signed(index) }),
    {
        Instruction { opcode: OpCode::JumpIfFalse, arg: InstructionArg::Signed(index) }
    }

    pub fn op_jump_if_true(index: i16) -> (r: Instruction)
        ensures
            r == (Instruction { opcode: OpCode::JumpIfTrue, arg: InstructionArg::Signed(index) }),
    {
        Instruction { opcode: OpCode::JumpIfTrue, arg: InstructionArg::Signed(index) }
    }

    pub fn op_abort() -> (r: Instruction)
        ensures
            r == (Instruction { opcode: OpCode::Abort, arg: InstructionArg::Empty }),
    {
        Instruction { opcode: OpCode::Abort, arg: InstructionArg::Empty }
    }

    pub fn op_get_variable() -> (r: Instruction)
        ensures
            r == (Instruction { opcode: OpCode::GetVariable, arg: InstructionArg::Empty }),
    {
        Instruction { opcode: OpCode::GetVariable, arg: InstructionArg::Empty }
    }

    pub fn op_print_to_console() -> (r: Instruction)
        ensures
            r == (Instruction { opcode: OpCode::PrintToConsole, arg: InstructionArg::Empty }),
    {
        Instruction { opcode: OpCode::PrintToConsole, arg: InstructionArg::Empty }
    }

    pub fn op_abort_all() -> (r: Instruction)
        ensures
            r == (Instruction { opcode: OpCode::AbortAll, arg: InstructionArg::Empty }),
    {
        Instruction { opcode: OpCode::AbortAll, arg: InstructionArg::Empty }
    }

    pub fn op_await() -> (r: Instruction)
        ensures
            r == (Instruction { opcode: OpCode::Await, arg: InstructionArg::Empty }),
    {
        Instruction { opcode: OpCode::Await, arg: InstructionArg::Empty }
    }

    pub fn op_await_all() -> (r: Instruction)
        ensures
            r == (Instruction { opcode: OpCode::AwaitAll, arg: InstructionArg::Empty }),
    {
        Instruction { opcode: OpCode::AwaitAll, arg: InstructionArg::Empty }
    }

    pub fn op_await_any() -> (r: Instruction)
        ensures
            r == (Instruction { opcode: OpCode::AwaitAny, arg: InstructionArg::Empty }),
    {
        Instruction { opcode: OpCode::AwaitAny, arg: InstructionArg::Empty }
    }

    pub fn op_call() -> (r: Instruction)
        ensures
            r == (Instruction { opcode: OpCode::Call, arg: InstructionArg::Empty }),
    {
        Instruction { opcode: OpCode::Call, arg: InstructionArg::Empty }
    }

    pub fn op_call_no_arg() -> (r: Instruction)
        ensures
            r == (Instruction { opcode: OpCode::CallNoArg, arg: InstructionArg::Empty }),
    {
        Instruction { opcode: OpCode::CallNoArg, arg: InstructionArg::Empty }
    }

    pub fn op_push_empty_array() -> (r: Instruction)
        ensures
            r == (Instruction { opcode: OpCode::PushEmptyArray, arg: InstructionArg::Empty }),
    {
        Instruction { opcode: OpCode::PushEmptyArray, arg: InstructionArg::Empty }
    }

    pub fn op_push_empty_object() -> (r: Instruction)
        ensures
            r == (Instruction { opcode: OpCode::PushEmptyObject, arg: InstructionArg::Empty }),
    {
        Instruction { opcode: OpCode::PushEmptyObject, arg: InstructionArg::Empty }
    }

    pub fn op_push_null() -> (r: Instruction)
        ensures
            r == (Instruction { opcode: OpCode::PushNull, arg: InstructionArg::Empty }),
    {
        Instruction { opcode: OpCode::PushNull, arg: InstructionArg::Empty }
    }

    pub fn op_push_boolean(flag: bool) -> (r: Instruction)
        ensures
            flag ==> r == (Instruction { opcode: OpCode::PushTrue, arg: InstructionArg::Empty }),
            !flag ==> r == (Instruction { opcode: OpCode::PushFalse, arg: InstructionArg::Empty }),
    {
        if flag {
            Instruction::op_push_true()
        } else {
            Instruction::op_push_false()
        }
    }

    pub fn op_push_true() -> (r: Instruction)
        ensures
            r == (Instruction { opcode: OpCode::PushTrue, arg: InstructionArg::Empty }),
    {
        Instruction { opcode: OpCode::PushTrue, arg: InstructionArg::Empty }
    }

    pub fn op_push_false() -> (r: Instruction)
        ensures
            r == (Instruction { opcode: OpCode::PushFalse, arg: InstructionArg::Empty }),
    {
        Instruction { opcode: OpCode::PushFalse, arg: InstructionArg::Empty }
    }

    pub fn op_exit() -> (r: Instruction)
        ensures
            r == (Instruction { opcode: OpCode::Exit, arg: InstructionArg::Empty }),
    {
        Instruction { opcode: OpCode::Exit, arg: InstructionArg::Empty }
    }
}


/// Each value's model has the same variant as the value itself.
pub broadcast proof fn lemma_model_shape(v: VmValue)
    ensures
        (#[trigger] v.model()) is Null <==> v is Null,
        v.model() is String <==> v is String,
        v.model() is Number <==> v is Number,
        v.model() is Array <==> v is Array,
        v.model() is Boolean <==> v is Boolean,
        v.model() is Object <==> v is Object,
        v.model() is Job <==> v is Job,
{
    match v {
        VmValue::Null => {},
        VmValue::String(_) => {},
        VmValue::Number(_) => {},
        VmValue::Array(_) => {},
        VmValue::Boolean(_) => {},
        VmValue::Object(_) => {},
        VmValue::Job(_) => {},
    }
}

/// An array value all of whose elements are jobs.
pub open spec fn is_array_of_jobs_model(m: ValueModel) -> bool {
    &&& m is Array
    &&& forall|i: int| 0 <= i < m->Array_0.len() ==> #[trigger] m->Array_0[i] is Job
}

/// Does a value match a coarse runtime classification?
pub open spec fn matches_type(m: ValueModel, t: VmValueType) -> bool {
    match t {
        VmValueType::Null => m is Null,
        VmValueType::Array => m is Array,
        VmValueType::ArrayOfJobs => is_array_of_jobs_model(m),
        VmValueType::Job => m is Job,
    }
}

impl VmValue {
    pub fn is_job(&self) -> (r: bool)
        ensures
            r == (self.model() is Job),
    {
        match self {
            VmValue::Null => false,
            VmValue::String(_) => false,
            VmValue::Number(_) => false,
            VmValue::Array(_) => false,
            VmValue::Boolean(_) => false,
            VmValue::Object(_) => false,
            VmValue::Job(_) => true,
        }
    }

    pub fn is_array(&self) -> (r: bool)
        ensures
            r == (self.model() is Array),
    {
        match self {
            VmValue::Null => false,
            VmValue::String(_) => false,
            VmValue::Number(_) => false,
            VmValue::Array(_) => true,
            VmValue::Boolean(_) => false,
            VmValue::Object(_) => false,
            VmValue::Job(_) => false,
        }
    }

    fn is_string(&self) -> (r: bool)
        ensures
            r == (self.model() is String),
    {
        match self {
            VmValue::Null => false,
            VmValue::String(_) => true,
            VmValue::Number(_) => false,
            VmValue::Array(_) => false,
            VmValue::Boolean(_) => false,
            VmValue::Object(_) => false,
            VmValue::Job(_) => false,
        }
    }

    pub fn is_object(&self) -> (r: bool)
        ensures
            r == (self.model() is Object),
    {
        match self {
            VmValue::Null => false,
            VmValue::String(_) => false,
            VmValue::Number(_) => false,
            VmValue::Array(_) => false,
            VmValue::Boolean(_) => false,
            VmValue::Object(_) => true,
            VmValue::Job(_) => false,
        }
    }

    pub fn is_null(&self) -> (r: bool)
        ensures
            r == (self.model() is Null),
    {
        match self {
            VmValue::Null => true,
            VmValue::String(_) => false,
            VmValue::Number(_) => false,
            VmValue::Array(_) => false,
            VmValue::Boolean(_) => false,
            VmValue::Object(_) => false,
            VmValue::Job(_) => false,
        }
    }

    #[verifier::loop_isolation(false)]
    pub fn is_array_of_jobs(&self) -> (r: bool)
        ensures
            r == is_array_of_jobs_model(self.model()),
    {
        match self {
            VmValue::Null => false,
            VmValue::String(_) => false,
            VmValue::Number(_) => false,
            VmValue::Array(arr) => {
                proof {
                    lemma_models_of(arr@);
                }
                let mut idx: usize = 0;
                while idx < arr.len()
                    invariant
                        0 <= idx <= arr@.len(),
                        forall|j: int| 0 <= j < idx ==> #[trigger] arr@[j].model() is Job,
                    decreases arr@.len() - idx,
                {
                    if !arr[idx].is_job() {
                        assert(self.model()->Array_0[idx as int] == arr@[idx as int].model());
                        return false;
                    }
                    idx += 1;
                }
                true
            },
            VmValue::Boolean(_) => false,
            VmValue::Object(_) => false,
            VmValue::Job(_) => false,
        }
    }

    pub fn is_boolean(&self) -> (r: bool)
        ensures
            r == (self.model() is Boolean),
    {
        match self {
            VmValue::Null => false,
            VmValue::String(_) => false,
            VmValue::Number(_) => false,
            VmValue::Array(_) => false,
            VmValue::Boolean(_) => true,
            VmValue::Object(_) => false,
            VmValue::Job(_) => false,
        }
    }

    /// Does this value match the given coarse classification?
    pub fn is_type(&self, value_type: VmValueType) -> (r: bool)
        ensures
            r == matches_type(self.model(), value_type),
    {
        match value_type {
            VmValueType::Null => self.is_null(),
            VmValueType::Array => self.is_array(),
            VmValueType::ArrayOfJobs => self.is_array_of_jobs(),
            VmValueType::Job => self.is_job(),
        }
    }
}

} // verus!
