use uuid::Uuid;
use x39vm::machine::memory::{VmPair, VmValue};
use x39vm::machine::vm_stack::VmStack;

#[test]
fn new_creates_empty_stack() -> Result<(), Box<dyn std::error::Error>> {
    let stack = VmStack::new();
    match stack.data.len() == 0 && stack.variables.len() == 0 {
        false => Err("VmStack::new() creates non-empty stack".into()),
        true => Ok(()),
    }
}

#[test]
fn push_value_has_value() -> Result<(), Box<dyn std::error::Error>> {
    let mut stack = VmStack::new();
    stack.push_value(VmValue::Null);
    match stack.data.len() {
        1 => Ok(()),
        _ => Err("push_value did not increase data size".into()),
    }
}

#[test]
fn pop_value_empty_errors() -> Result<(), Box<dyn std::error::Error>> {
    let mut stack = VmStack::new();
    match stack.pop_value() {
        Ok(_) => Err("Empty stack yields value instead of error".into()),
        Err(_) => Ok(()),
    }
}

#[test]
fn pop_value_nonempty_no_error() -> Result<(), Box<dyn std::error::Error>> {
    let mut stack = VmStack::new();
    stack.data.push(VmValue::Null);
    match stack.pop_value() {
        Ok(_) => Ok(()),
        Err(_) => Err("Non empty stack yields an error instead of a value".into()),
    }
}

#[test]
fn pop_object_wrong_type_errors() -> Result<(), Box<dyn std::error::Error>> {
    let mut stack = VmStack::new();
    stack.push_value(VmValue::Null);
    match stack.pop_object() {
        Ok(_) => Err("pop_object with VmValue::Null returned valid object".into()),
        Err(_) => Ok(()),
    }
}

#[test]
fn pop_object_correct_type_no_error() -> Result<(), Box<dyn std::error::Error>> {
    let mut stack = VmStack::new();
    stack.push_value(VmValue::Object(vec![VmPair {
        key: "abc".into(),
        value: VmValue::Null,
    }]));
    match stack.pop_object() {
        Ok(v) => {
            if v.len() == 1 && v[0].key == "abc" && v[0].value.is_null() {
                Ok(())
            } else {
                Err("pop_object with VmValue::Object returned a value \
                but the value does not hold the expected object"
                    .into())
            }
        }
        Err(_) => Err("pop_object with VmValue::Object returned an error".into()),
    }
}

#[test]
fn pop_array_wrong_type_errors() -> Result<(), Box<dyn std::error::Error>> {
    let mut stack = VmStack::new();
    stack.push_value(VmValue::Null);
    match stack.pop_array() {
        Ok(_) => Err("pop_array with VmValue::Null returned valid array".into()),
        Err(_) => Ok(()),
    }
}

#[test]
fn pop_array_correct_type_no_error() -> Result<(), Box<dyn std::error::Error>> {
    let mut stack = VmStack::new();
    stack.push_value(VmValue::Array(vec![VmValue::Null]));
    match stack.pop_array() {
        Ok(v) => {
            if v.len() == 1 && v[0].is_null() {
                Ok(())
            } else {
                Err("pop_array with VmValue::Array returned a value \
                but the value does not hold the expected array"
                    .into())
            }
        }
        Err(_) => Err("pop_array with VmValue::Array returned an error".into()),
    }
}

#[test]
fn pop_string_wrong_type_errors() -> Result<(), Box<dyn std::error::Error>> {
    let mut stack = VmStack::new();
    stack.push_value(VmValue::Null);
    match stack.pop_string() {
        Ok(_) => Err("pop_string with VmValue::Null returned valid string".into()),
        Err(_) => Ok(()),
    }
}

#[test]
fn pop_string_correct_type_no_error() -> Result<(), Box<dyn std::error::Error>> {
    let mut stack = VmStack::new();
    stack.push_value(VmValue::String("FooBar".into()));
    match stack.pop_string() {
        Ok(v) => {
            if v == "FooBar" {
                Ok(())
            } else {
                Err("pop_string with VmValue::String returned a value \
                but the value does not hold the expected string"
                    .into())
            }
        }
        Err(_) => Err("pop_string with VmValue::String returned an error".into()),
    }
}

#[test]
fn pop_number_wrong_type_errors() -> Result<(), Box<dyn std::error::Error>> {
    let mut stack = VmStack::new();
    stack.push_value(VmValue::Null);
    match stack.pop_number() {
        Ok(_) => Err("pop_number with VmValue::Null returned valid number".into()),
        Err(_) => Ok(()),
    }
}

#[test]
fn pop_number_correct_type_no_error() -> Result<(), Box<dyn std::error::Error>> {
    let mut stack = VmStack::new();
    stack.push_value(VmValue::Number(123.5f64.to_bits()));
    match stack.pop_number() {
        Ok(v) => {
            if f64::from_bits(v) == 123.5 {
                Ok(())
            } else {
                Err("pop_number with VmValue::Number returned a value \
                but the value does not hold the expected number"
                    .into())
            }
        }
        Err(_) => Err("pop_number with VmValue::Number returned an error".into()),
    }
}

#[test]
fn pop_bool_wrong_type_errors() -> Result<(), Box<dyn std::error::Error>> {
    let mut stack = VmStack::new();
    stack.push_value(VmValue::Null);
    match stack.pop_bool() {
        Ok(_) => Err("pop_bool with VmValue::Null returned valid bool".into()),
        Err(_) => Ok(()),
    }
}

#[test]
fn pop_bool_correct_type_no_error() -> Result<(), Box<dyn std::error::Error>> {
    let mut stack = VmStack::new();
    stack.push_value(VmValue::Boolean(true));
    match stack.pop_bool() {
        Ok(v) => {
            if v == true {
                Ok(())
            } else {
                Err("pop_bool with VmValue::Boolean returned a value \
                but the value does not hold the expected bool"
                    .into())
            }
        }
        Err(_) => Err("pop_bool with VmValue::Boolean returned an error".into()),
    }
}

#[test]
fn pop_job_wrong_type_errors() -> Result<(), Box<dyn std::error::Error>> {
    let mut stack = VmStack::new();
    stack.push_value(VmValue::Null);
    match stack.pop_job() {
        Ok(_) => Err("pop_job with VmValue::Null returned valid job".into()),
        Err(_) => Ok(()),
    }
}

#[test]
fn pop_job_correct_type_no_error() -> Result<(), Box<dyn std::error::Error>> {
    let mut stack = VmStack::new();
    let uuid = Uuid::new_v4();
    stack.push_value(VmValue::Job(uuid.as_u128()));
    match stack.pop_job() {
        Ok(v) => {
            if v == uuid.as_u128() {
                Ok(())
            } else {
                Err("pop_job with VmValue::job returned a value \
                but the value does not hold the expected job"
                    .into())
            }
        }
        Err(_) => Err("pop_job with VmValue::job returned an error".into()),
    }
}

#[test]
fn get_variable_empty_not_existing() -> Result<(), Box<dyn std::error::Error>> {
    let stack = VmStack::new();
    match stack.get_variable("foobar") {
        Some(_) => Err("get_variable returned a value for foobar \
            but no variable exists on the stack."
            .into()),
        None => Ok(()),
    }
}

#[test]
fn get_variable_filled_not_existing() -> Result<(), Box<dyn std::error::Error>> {
    let mut stack = VmStack::new();
    stack.variables.push(VmPair {
        key: "barfoo".into(),
        value: VmValue::Null,
    });
    match stack.get_variable("foobar") {
        Some(_) => Err("get_variable returned a value for foobar \
            but no variable exists on the stack."
            .into()),
        None => Ok(()),
    }
}

#[test]
fn get_variable_existing() -> Result<(), Box<dyn std::error::Error>> {
    let mut stack = VmStack::new();
    stack.variables.push(VmPair {
        key: "foobar".into(),
        value: VmValue::Boolean(true),
    });
    match stack.get_variable("foobar") {
        Some(v) => match v {
            VmValue::Boolean(flag) => {
                if flag == true {
                    Ok(())
                } else {
                    Err("get_variable returned a value for foobar \
                but the value does not hold the expected true bool"
                        .into())
                }
            }
            _ => Err("get_variable returned a value for foobar \
                but the value does not hold the expected type"
                .into()),
        },
        None => Err("get_variable returned no value for foobar \
            but should have as the variable exists."
            .into()),
    }
}

#[test]
fn get_variable_empty_not_creating_variable() -> Result<(), Box<dyn std::error::Error>> {
    let stack = VmStack::new();
    let len = stack.variables.len();
    stack.get_variable("foobar");
    if stack.variables.len() != len {
        Err("get_variable created a variable when it should not have been able to.".into())
    } else {
        Ok(())
    }
}

#[test]
fn set_variable_empty_not_existing_creates_new_pair() -> Result<(), Box<dyn std::error::Error>> {
    let mut stack = VmStack::new();
    let len = stack.variables.len();
    stack.set_variable("foobar", VmValue::Null);
    if stack.variables.len() != len + 1 {
        Err("set_variable did not create a new VmPair in variables section of stack.".into())
    } else {
        Ok(())
    }
}

#[test]
fn set_variable_filled_not_existing_creates_new_pair() -> Result<(), Box<dyn std::error::Error>> {
    let mut stack = VmStack::new();
    stack.variables.push(VmPair {
        key: "barfoo".into(),
        value: VmValue::Boolean(true),
    });
    let len = stack.variables.len();
    stack.set_variable("foobar", VmValue::Null);
    if stack.variables.len() != len + 1 {
        Err("set_variable did not create a new VmPair in variables section of stack.".into())
    } else {
        Ok(())
    }
}

#[test]
fn set_variable_existing_no_new_pair() -> Result<(), Box<dyn std::error::Error>> {
    let mut stack = VmStack::new();
    stack.variables.push(VmPair {
        key: "foobar".into(),
        value: VmValue::Boolean(true),
    });
    let len = stack.variables.len();
    stack.set_variable("foobar", VmValue::Null);
    if stack.variables.len() != len {
        Err("set_variable created a new VmPair in variables section of stack even \
            though a matching pair existed."
            .into())
    } else {
        Ok(())
    }
}

#[test]
fn set_variable_existing_value_matches_expected() -> Result<(), Box<dyn std::error::Error>> {
    let mut stack = VmStack::new();
    stack.variables.push(VmPair {
        key: "foobar".into(),
        value: VmValue::Boolean(true),
    });
    stack.set_variable("foobar", VmValue::Null);
    match stack.get_variable("foobar") {
        Some(v) => match v {
            VmValue::Null => {}
            _ => return Err("set_variable did not update the value to the expected value.".into()),
        },
        _ => return Err("set_variable erased variable instead of setting it.".into()),
    };
    stack.set_variable("foobar", VmValue::Boolean(true));
    match stack.get_variable("foobar") {
        Some(v) => match v {
            VmValue::Boolean(flag) => {
                if flag == true {
                    Ok(())
                } else {
                    Err("set_variable did update the value to the expected type but it does not contain the expected value.".into())
                }
            }
            _ => Err("set_variable did not update the value to the expected value.".into()),
        },
        _ => Err("set_variable erased variable instead of setting it.".into()),
    }
}
