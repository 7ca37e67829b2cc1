use crate::error::InterpretError;
use std::rc::Rc;
use vstd::prelude::*;

verus! {

/// The tag of a runtime value.
#[allow(non_camel_case_types)]
#[derive(PartialEq, Eq, Structural, Clone, Copy, Debug)]
pub enum ValueKind {
    ValBool,
    ValNil,
    ValNumber,
    ValObj,
}

/// The tag of a heap-allocated object. Strings are the only object kind the
/// language has today.
#[allow(non_camel_case_types)]
#[derive(PartialEq, Eq, Structural, Clone, Copy, Debug)]
pub enum ObjKind {
    OBJ_STRING,
}

/// The mathematical model of a runtime value: what contracts speak of.
pub enum ValueModel {
    Bool(bool),
    Nil,
    Number(int),
    Str(Seq<char>),
}

/// A runtime value: a tagged union over booleans, nil, numbers and
/// heap-allocated objects. Object payloads are shared handles, because the
/// same string may be referenced from the constant pool and from several
/// stack slots at once.
#[derive(Debug)]
pub enum Value {
    Bool(bool),
    Nil,
    Number(i64),
    Obj(Rc<String>),
}

impl View for Value {
    type V = ValueModel;

    open spec fn view(&self) -> ValueModel {
        match self {
            Value::Bool(b) => ValueModel::Bool(*b),
            Value::Nil => ValueModel::Nil,
            Value::Number(n) => ValueModel::Number(*n as int),
            Value::Obj(o) => ValueModel::Str(o@),
        }
    }
}

/// Relies on Rc::clone: the result is a handle to the same allocation, so its
/// pointed-to value is exactly the pointed-to value of the argument.
#[verifier::external_body]
fn rc_clone(rc: &Rc<String>) -> (r: Rc<String>)
    ensures
        r == *rc,
{
    Rc::clone(rc)
}

impl Clone for Value {
    fn clone(&self) -> (r: Self)
        ensures
            r == *self,
    {
        match self {
            Value::Bool(b) => Value::Bool(*b),
            Value::Nil => Value::Nil,
            Value::Number(n) => Value::Number(*n),
            Value::Obj(o) => Value::Obj(rc_clone(o)),
        }
    }
}

impl Value {
    /// The tag of this value.
    pub open spec fn kind_spec(&self) -> ValueKind {
        match self {
            Value::Bool(_) => ValueKind::ValBool,
            Value::Nil => ValueKind::ValNil,
            Value::Number(_) => ValueKind::ValNumber,
            Value::Obj(_) => ValueKind::ValObj,
        }
    }

    pub fn kind(&self) -> (k: ValueKind)
        ensures
            k == self.kind_spec(),
    {
        match self {
            Value::Bool(_) => ValueKind::ValBool,
            Value::Nil => ValueKind::ValNil,
            Value::Number(_) => ValueKind::ValNumber,
            Value::Obj(_) => ValueKind::ValObj,
        }
    }

    /// Equality between runtime values: equal tags, then equal payloads;
    /// object equality is by string content, not identity.
    pub fn values_equal(a: Value, b: Value) -> (r: bool)
        ensures
            r == (a@ == b@),
    {
        match (&a, &b) {
            (Value::Bool(x), Value::Bool(y)) => *x == *y,
            (Value::Nil, Value::Nil) => true,
            (Value::Number(x), Value::Number(y)) => *x == *y,
            (Value::Obj(x), Value::Obj(y)) => (**x) == (**y),
            _ => false,
        }
    }

    // instantiate a Value from a Rust primitive
    pub fn bool_val(b: bool) -> (v: Self)
        ensures
            v@ == ValueModel::Bool(b),
    {
        Value::Bool(b)
    }

    pub fn nil_value() -> (v: Self)
        ensures
            v@ == ValueModel::Nil,
    {
        Value::Nil
    }

    pub fn number_value(num: i64) -> (v: Self)
        ensures
            v@ == ValueModel::Number(num as int),
    {
        Value::Number(num)
    }

    // read the Rust value back out of a Value
    pub fn as_bool(&self) -> (r: Result<bool, InterpretError>)
        ensures
            match *self {
                Value::Bool(b) => r == Ok::<bool, InterpretError>(b),
                _ => r == Err::<bool, InterpretError>(InterpretError::RUNTIME_ERROR),
            },
    {
        match self {
            Value::Bool(b) => Ok(*b),
            _ => Err(InterpretError::RUNTIME_ERROR),
        }
    }

    /// Nil carries no payload; reading it as a number yields zero.
    pub fn as_nil(&self) -> (r: Result<i64, InterpretError>)
        ensures
            match *self {
                Value::Nil => r == Ok::<i64, InterpretError>(0i64),
                _ => r == Err::<i64, InterpretError>(InterpretError::RUNTIME_ERROR),
            },
    {
        match self {
            Value::Nil => Ok(0),
            _ => Err(InterpretError::RUNTIME_ERROR),
        }
    }

    pub fn as_number(&self) -> (r: Result<i64, InterpretError>)
        ensures
            match *self {
                Value::Number(n) => r == Ok::<i64, InterpretError>(n),
                _ => r == Err::<i64, InterpretError>(InterpretError::RUNTIME_ERROR),
            },
    {
        match self {
            Value::Number(n) => Ok(*n),
            _ => Err(InterpretError::RUNTIME_ERROR),
        }
    }

    pub fn as_obj(&self) -> (r: Result<Rc<String>, InterpretError>)
        ensures
            match *self {
                Value::Obj(o) => r == Ok::<Rc<String>, InterpretError>(o),
                _ => r == Err::<Rc<String>, InterpretError>(InterpretError::RUNTIME_ERROR),
            },
    {
        match self {
            Value::Obj(o) => Ok(rc_clone(o)),
            _ => Err(InterpretError::RUNTIME_ERROR),
        }
    }

    /// The string content of an object value, as an owned copy.
    pub fn as_string(&self) -> (r: Result<String, InterpretError>)
        ensures
            match *self {
                Value::Obj(o) => r matches Ok(s) && s@ == o@,
                _ => r == Err::<String, InterpretError>(InterpretError::RUNTIME_ERROR),
            },
    {
        match self {
            Value::Obj(o) => Ok((**o).clone()),
            _ => Err(InterpretError::RUNTIME_ERROR),
        }
    }

    /// How a value reads when printed, by its tag. Nil renders as its zero
    /// payload.
    pub open spec fn render_spec(m: ValueModel) -> Seq<char> {
        match m {
            ValueModel::Bool(b) => if b {
                "true"@
            } else {
                "false"@
            },
            ValueModel::Nil => crate::util::dec_int(0),
            ValueModel::Number(n) => crate::util::dec_int(n),
            ValueModel::Str(s) => s,
        }
    }

    /// Renders the value for printing.
    pub fn render(&self) -> (s: String)
        ensures
            s@ == Value::render_spec(self@),
    {
        match self {
            Value::Bool(b) => {
                if *b {
                    "true".to_owned()
                } else {
                    "false".to_owned()
                }
            },
            Value::Nil => crate::util::i64_to_string(0),
            Value::Number(n) => crate::util::i64_to_string(*n),
            Value::Obj(o) => (**o).clone(),
        }
    }

    // check the kind of a value
    pub fn is_bool(&self) -> (r: bool)
        ensures
            r == (*self is Bool),
    {
        match self {
            Value::Bool(_) => true,
            _ => false,
        }
    }

    pub fn is_nil(&self) -> (r: bool)
        ensures
            r == (*self is Nil),
    {
        match self {
            Value::Nil => true,
            _ => false,
        }
    }

    pub fn is_number(&self) -> (r: bool)
        ensures
            r == (*self is Number),
    {
        match self {
            Value::Number(_) => true,
            _ => false,
        }
    }

    pub fn is_obj(&self) -> (r: bool)
        ensures
            r == (*self is Obj),
    {
        match self {
            Value::Obj(_) => true,
            _ => false,
        }
    }

    /// Every object today is a string, so this coincides with is_obj.
    pub fn is_string(value: &Value) -> (r: bool)
        ensures
            r == (*value is Obj),
    {
        Value::is_obj_kind(value, ObjKind::OBJ_STRING)
    }

    fn is_obj_kind(value: &Value, obj_kind: ObjKind) -> (r: bool)
        ensures
            r == (*value is Obj && obj_kind == ObjKind::OBJ_STRING),
    {
        match value {
            Value::Obj(_) => obj_kind == ObjKind::OBJ_STRING,
            _ => false,
        }
    }
}

// ##############################################################
// Object handling
// ##############################################################

/// The capability a heap object offers: a kind tag and its text content.
pub trait ObjectHandler {
    /// The character content this object stands for.
    spec fn content(&self) -> Seq<char>;

    fn kind(&self) -> (k: ObjKind);

    fn text(&self) -> (s: String)
        ensures
            s@ == self.content(),
    ;
}

impl ObjectHandler for String {
    open spec fn content(&self) -> Seq<char> {
        self@
    }

    fn kind(&self) -> ObjKind {
        ObjKind::OBJ_STRING
    }

    fn text(&self) -> String {
        self.clone()
    }
}

impl ObjectHandler for &str {
    open spec fn content(&self) -> Seq<char> {
        self@
    }

    fn kind(&self) -> ObjKind {
        ObjKind::OBJ_STRING
    }

    fn text(&self) -> String {
        (*self).to_owned()
    }
}

/// Wraps an object's text in a shared handle and tags it as an object value.
pub fn allocate_object<T: ObjectHandler>(data: T) -> (v: Value)
    ensures
        v@ == ValueModel::Str(data.content()),
{
    let text = data.text();
    Value::Obj(Rc::new(text))
}

} // verus!
