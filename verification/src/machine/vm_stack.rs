use vstd::prelude::*;

use crate::machine::memory::{PairModel, ValueModel, VmPair, VmValue};
use crate::machine::memory::{is_array_of_jobs_model, lemma_model_shape, lemma_models_of, lemma_pair_models_of};
use crate::machine::vm_error::VmError;

verus! {

/// The per-execution operand stack together with the variable environment.
///
/// The environment only grows: assignment updates the first binding with a
/// matching name and appends a fresh binding when none matches.
pub struct VmStack {
    pub data: Vec<VmValue>,
    pub variables: Vec<VmPair>,
}

/// Index of the first binding whose key is `key`, or -1 when there is none;
/// lookup and update both go by the first match.
pub open spec fn var_index(vars: Seq<PairModel>, key: Seq<char>) -> int
    decreases vars.len(),
{
    if vars.len() == 0 {
        -1
    } else if vars[0].key == key {
        0
    } else {
        let rest = var_index(vars.drop_first(), key);
        if rest == -1 {
            -1
        } else {
            rest + 1
        }
    }
}

/// [`var_index`] names the first matching binding: it is -1 exactly when no
/// binding matches, and otherwise the least index with a matching key.
pub broadcast proof fn lemma_var_index(vars: Seq<PairModel>, key: Seq<char>)
    ensures
        #[trigger] var_index(vars, key) == -1 <==> (forall|i: int|
            0 <= i < vars.len() ==> (#[trigger] vars[i]).key != key),
        var_index(vars, key) != -1 ==> {
            &&& 0 <= var_index(vars, key) < vars.len()
            &&& vars[var_index(vars, key)].key == key
            &&& forall|i: int| 0 <= i < var_index(vars, key) ==> (#[trigger] vars[i]).key != key
        },
    decreases vars.len(),
{
    if vars.len() > 0 && vars[0].key != key {
        lemma_var_index(vars.drop_first(), key);
        assert forall|i: int| 1 <= i < vars.len() implies vars.drop_first()[i - 1] == vars[i] by {}
    }
}

impl VmStack {
    /// Models of the operand stack entries, bottom first.
    pub open spec fn data_models(&self) -> Seq<ValueModel> {
        VmValue::models_of(self.data@)
    }

    /// Models of the variable bindings, oldest first.
    pub open spec fn var_models(&self) -> Seq<PairModel> {
        VmValue::pair_models_of(self.variables@)
    }

    /// A fresh stack: no operands, no variables.
    pub fn new() -> (r: VmStack)
        ensures
            r.data_models() == Seq::<ValueModel>::empty(),
            r.var_models() == Seq::<PairModel>::empty(),
    {
        VmStack { data: Vec::new(), variables: Vec::new() }
    }

    /// Push one value onto the operand stack.
    pub fn push_value(&mut self, value: VmValue)
        ensures
            final(self).data_models() == old(self).data_models().push(value.model()),
            final(self).var_models() == old(self).var_models(),
    {
        proof {
            lemma_models_of(self.data@);
        }
        let ghost before = self.data@;
        self.data.push(value);
        proof {
            lemma_models_of(self.data@);
            assert(self.data@.drop_last() =~= before);
            assert(self.data_models() =~= old(self).data_models().push(value.model()));
        }
    }

    /// Pop the top value; popping an empty stack is an underflow error.
    pub fn pop_value(&mut self) -> (r: Result<VmValue, VmError>)
        ensures
            final(self).var_models() == old(self).var_models(),
            match r {
                Ok(v) => {
                    &&& old(self).data_models().len() > 0
                    &&& v.model() == old(self).data_models().last()
                    &&& final(self).data_models() == old(self).data_models().drop_last()
                },
                Err(e) => {
                    &&& old(self).data_models().len() == 0
                    &&& final(self).data_models() == old(self).data_models()
                    &&& e is StackUnderflow
                },
            },
    {
        proof {
            lemma_models_of(self.data@);
        }
        let value_opt = self.data.pop();
        match value_opt {
            None => Err(VmError::StackUnderflow),
            Some(value) => {
                proof {
                    lemma_models_of(self.data@);
                    assert(self.data_models() =~= old(self).data_models().drop_last());
                }
                Ok(value)
            },
        }
    }

    /// Pop the top value, which must be an object.
    pub fn pop_object(&mut self) -> (r: Result<Vec<VmPair>, VmError>)
        ensures
            final(self).var_models() == old(self).var_models(),
            match r {
                Ok(object) => {
                    &&& old(self).data_models().len() > 0
                    &&& old(self).data_models().last() == ValueModel::Object(
                        VmValue::pair_models_of(object@),
                    )
                    &&& final(self).data_models() == old(self).data_models().drop_last()
                },
                Err(e) => {
                    &&& old(self).data_models().len() == 0 ==> e is StackUnderflow
                        && final(self).data_models() == old(self).data_models()
                    &&& old(self).data_models().len() > 0 ==> !(old(
                        self,
                    ).data_models().last() is Object) && e is StackTypeMismatch
                        && final(self).data_models() == old(self).data_models().drop_last()
                },
            },
    {
        let candidate = self.pop_value()?;
        match candidate {
            VmValue::Object(object) => Ok(object),
            _ => Err(VmError::StackTypeMismatch),
        }
    }

    /// Pop the top value, which must be an array.
    pub fn pop_array(&mut self) -> (r: Result<Vec<VmValue>, VmError>)
        ensures
            final(self).var_models() == old(self).var_models(),
            match r {
                Ok(array) => {
                    &&& old(self).data_models().len() > 0
                    &&& old(self).data_models().last() == ValueModel::Array(
                        VmValue::models_of(array@),
                    )
                    &&& final(self).data_models() == old(self).data_models().drop_last()
                },
                Err(e) => {
                    &&& old(self).data_models().len() == 0 ==> e is StackUnderflow
                        && final(self).data_models() == old(self).data_models()
                    &&& old(self).data_models().len() > 0 ==> !(old(
                        self,
                    ).data_models().last() is Array) && e is StackTypeMismatch
                        && final(self).data_models() == old(self).data_models().drop_last()
                },
            },
    {
        let candidate = self.pop_value()?;
        match candidate {
            VmValue::Array(array) => Ok(array),
            _ => Err(VmError::StackTypeMismatch),
        }
    }

    /// Pop the top value, which must be a string.
    pub fn pop_string(&mut self) -> (r: Result<String, VmError>)
        ensures
            final(self).var_models() == old(self).var_models(),
            match r {
                Ok(string) => {
                    &&& old(self).data_models().len() > 0
                    &&& old(self).data_models().last() == ValueModel::String(string@)
                    &&& final(self).data_models() == old(self).data_models().drop_last()
                },
                Err(e) => {
                    &&& old(self).data_models().len() == 0 ==> e is StackUnderflow
                        && final(self).data_models() == old(self).data_models()
                    &&& old(self).data_models().len() > 0 ==> !(old(
                        self,
                    ).data_models().last() is String) && e is StackTypeMismatch
                        && final(self).data_models() == old(self).data_models().drop_last()
                },
            },
    {
        let candidate = self.pop_value()?;
        match candidate {
            VmValue::String(string) => Ok(string),
            _ => Err(VmError::StackTypeMismatch),
        }
    }

    /// Pop the top value, which must be a number; the raw bits are returned.
    pub fn pop_number(&mut self) -> (r: Result<u64, VmError>)
        ensures
            final(self).var_models() == old(self).var_models(),
            match r {
                Ok(bits) => {
                    &&& old(self).data_models().len() > 0
                    &&& old(self).data_models().last() == ValueModel::Number(bits)
                    &&& final(self).data_models() == old(self).data_models().drop_last()
                },
                Err(e) => {
                    &&& old(self).data_models().len() == 0 ==> e is StackUnderflow
                        && final(self).data_models() == old(self).data_models()
                    &&& old(self).data_models().len() > 0 ==> !(old(
                        self,
                    ).data_models().last() is Number) && e is StackTypeMismatch
                        && final(self).data_models() == old(self).data_models().drop_last()
                },
            },
    {
        let candidate = self.pop_value()?;
        match candidate {
            VmValue::Number(f) => Ok(f),
            _ => Err(VmError::StackTypeMismatch),
        }
    }

    /// Pop the top value, which must be a boolean.
    pub fn pop_bool(&mut self) -> (r: Result<bool, VmError>)
        ensures
            final(self).var_models() == old(self).var_models(),
            match r {
                Ok(flag) => {
                    &&& old(self).data_models().len() > 0
                    &&& old(self).data_models().last() == ValueModel::Boolean(flag)
                    &&& final(self).data_models() == old(self).data_models().drop_last()
                },
                Err(e) => {
                    &&& old(self).data_models().len() == 0 ==> e is StackUnderflow
                        && final(self).data_models() == old(self).data_models()
                    &&& old(self).data_models().len() > 0 ==> !(old(
                        self,
                    ).data_models().last() is Boolean) && e is StackTypeMismatch
                        && final(self).data_models() == old(self).data_models().drop_last()
                },
            },
    {
        let candidate = self.pop_value()?;
        match candidate {
            VmValue::Boolean(flag) => Ok(flag),
            _ => Err(VmError::StackTypeMismatch),
        }
    }

    /// Pop the top value, which must be a job handle.
    pub fn pop_job(&mut self) -> (r: Result<u128, VmError>)
        ensures
            final(self).var_models() == old(self).var_models(),
            match r {
                Ok(job) => {
                    &&& old(self).data_models().len() > 0
                    &&& old(self).data_models().last() == ValueModel::Job(job)
                    &&& final(self).data_models() == old(self).data_models().drop_last()
                },
                Err(e) => {
                    &&& old(self).data_models().len() == 0 ==> e is StackUnderflow
                        && final(self).data_models() == old(self).data_models()
                    &&& old(self).data_models().len() > 0 ==> !(old(
                        self,
                    ).data_models().last() is Job) && e is StackTypeMismatch
                        && final(self).data_models() == old(self).data_models().drop_last()
                },
            },
    {
        let candidate = self.pop_value()?;
        match candidate {
            VmValue::Job(id) => Ok(id),
            _ => Err(VmError::StackTypeMismatch),
        }
    }

    /// Pop the top value, which must be an array whose elements are all jobs;
    /// the job handles are returned in array order.
    #[verifier::loop_isolation(false)]
    pub fn pop_array_of_jobs(&mut self) -> (r: Result<Vec<u128>, VmError>)
        ensures
            final(self).var_models() == old(self).var_models(),
            match r {
                Ok(jobs) => {
                    &&& old(self).data_models().len() > 0
                    &&& is_array_of_jobs_model(old(self).data_models().last())
                    &&& jobs@.len() == old(self).data_models().last()->Array_0.len()
                    &&& forall|i: int|
                        0 <= i < jobs@.len() ==> ValueModel::Job(#[trigger] jobs@[i]) == old(
                            self,
                        ).data_models().last()->Array_0[i]
                    &&& final(self).data_models() == old(self).data_models().drop_last()
                },
                Err(e) => {
                    &&& old(self).data_models().len() == 0 ==> e is StackUnderflow
                        && final(self).data_models() == old(self).data_models()
                    &&& old(self).data_models().len() > 0 ==> !is_array_of_jobs_model(
                        old(self).data_models().last(),
                    ) && e is StackTypeMismatch && final(self).data_models() == old(
                        self,
                    ).data_models().drop_last()
                },
            },
    {
        let array_value = self.pop_value()?;
        if !array_value.is_array_of_jobs() {
            return Err(VmError::StackTypeMismatch);
        }
        match array_value {
            VmValue::Array(array) => {
                proof {
                    lemma_models_of(array@);
                }
                let mut jobs: Vec<u128> = Vec::new();
                let mut idx: usize = 0;
                while idx < array.len()
                    invariant
                        0 <= idx <= array@.len(),
                        jobs@.len() == idx,
                        forall|i: int|
                            0 <= i < idx ==> ValueModel::Job(#[trigger] jobs@[i]) == array@[
                                i
                            ].model(),
                    decreases array@.len() - idx,
                {
                    proof {
                        assert(array_value.model() == ValueModel::Array(
                            VmValue::models_of(array@),
                        ));
                        assert(array_value.model()->Array_0[idx as int] is Job);
                        lemma_model_shape(array@[idx as int]);
                        assert(array@[idx as int].model() is Job);
                    }
                    match &array[idx] {
                        VmValue::Job(id) => jobs.push(*id),
                        _ => {
                            return Err(VmError::StackTypeMismatch);
                        },
                    }
                    idx += 1;
                }
                Ok(jobs)
            },
            _ => Err(VmError::StackTypeMismatch),
        }
    }

    /// Look a variable up by name; the first binding with the name wins.
    #[verifier::loop_isolation(false)]
    pub fn get_variable(&self, name: &str) -> (r: Option<VmValue>)
        ensures
            match r {
                Some(v) => {
                    &&& var_index(self.var_models(), name@) >= 0
                    &&& v.model() == self.var_models()[var_index(self.var_models(), name@)].value
                },
                None => var_index(self.var_models(), name@) == -1,
            },
    {
        proof {
            lemma_pair_models_of(self.variables@);
            lemma_var_index(self.var_models(), name@);
        }
        let key: String = name.to_owned();
        let mut idx: usize = 0;
        while idx < self.variables.len()
            invariant
                0 <= idx <= self.variables@.len(),
                key@ == name@,
                forall|i: int| 0 <= i < idx ==> (#[trigger] self.var_models()[i]).key != name@,
            decreases self.variables@.len() - idx,
        {
            if self.variables[idx].key == key {
                proof {
                    assert(self.var_models()[idx as int].key == name@);
                    let vi = var_index(self.var_models(), name@);
                    assert(vi != -1);
                    if vi < idx as int {
                        assert(self.var_models()[vi].key != name@);
                        assert(false);
                    }
                    if vi > idx as int {
                        assert(self.var_models()[idx as int].key != name@);
                        assert(false);
                    }
                }
                return Some(self.variables[idx].value.clone());
            }
            idx += 1;
        }
        None
    }

    /// Bind a value to a name: overwrite the first binding with that name, or
    /// append a fresh binding when none exists.  The environment never shrinks.
    #[verifier::loop_isolation(false)]
    pub fn set_variable(&mut self, name: &str, value: VmValue)
        ensures
            final(self).data_models() == old(self).data_models(),
            var_index(old(self).var_models(), name@) >= 0 ==> final(self).var_models() == old(
                self,
            ).var_models().update(
                var_index(old(self).var_models(), name@),
                PairModel { key: name@, value: value.model() },
            ),
            var_index(old(self).var_models(), name@) == -1 ==> final(self).var_models() == old(
                self,
            ).var_models().push(PairModel { key: name@, value: value.model() }),
    {
        proof {
            lemma_pair_models_of(self.variables@);
            lemma_var_index(self.var_models(), name@);
        }
        let key: String = name.to_owned();
        let ghost before = self.variables@;
        let mut idx: usize = 0;
        while idx < self.variables.len()
            invariant
                0 <= idx <= self.variables@.len(),
                self.variables@ == before,
                self.data@ == old(self).data@,
                key@ == name@,
                forall|i: int|
                    0 <= i < idx ==> (#[trigger] VmValue::pair_models_of(before)[i]).key != name@,
            decreases self.variables@.len() - idx,
        {
            if self.variables[idx].key == key {
                proof {
                    assert(self.var_models()[idx as int].key == name@);
                    let vi = var_index(self.var_models(), name@);
                    assert(vi != -1);
                    if vi < idx as int {
                        assert(self.var_models()[vi].key != name@);
                        assert(false);
                    }
                    if vi > idx as int {
                        assert(self.var_models()[idx as int].key != name@);
                        assert(false);
                    }
                }
                self.variables[idx] = VmPair { key, value };
                proof {
                    lemma_pair_models_of(self.variables@);
                    assert(self.var_models() =~= old(self).var_models().update(
                        idx as int,
                        PairModel { key: name@, value: value.model() },
                    ));
                }
                return ;
            }
            idx += 1;
        }
        self.variables.push(VmPair { key, value });
        proof {
            lemma_pair_models_of(self.variables@);
            assert(self.variables@.drop_last() =~= before);
            assert(self.var_models() =~= old(self).var_models().push(
                PairModel { key: name@, value: value.model() },
            ));
        }
    }
}

} // verus!
