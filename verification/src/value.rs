use vstd::prelude::*;
use vstd::std_specs::cmp::PartialEqSpecImpl;
use crate::closure::{ClosureObject, ClosureView};
use crate::function::{FunctionObject, FunctionView};
use crate::native::{NativeFunction, NativeView};
use crate::heap::Heap;

verus! {

// ── Numbers ──────────────────────────────────────────────────────────────────
//
// A number is an IEEE 754 double, held as its 64-bit pattern.

/// The sign bit of a double.
pub const SIGN_BIT: u64 = 0x8000_0000_0000_0000;

/// The exponent bits of a double.
pub const EXPONENT_BITS: u64 = 0x7ff0_0000_0000_0000;

/// The fraction bits of a double.
pub const FRACTION_BITS: u64 = 0x000f_ffff_ffff_ffff;

/// All bits of a double but the sign.
pub const MAGNITUDE_BITS: u64 = 0x7fff_ffff_ffff_ffff;

/// The pattern of the number one.
pub const ONE_BITS: u64 = 0x3ff0_0000_0000_0000;

/// Whether the double with bit pattern `b` is a NaN: all exponent bits set and a
/// non-zero fraction.
pub open spec fn is_nan_bits(b: u64) -> bool {
    (b & EXPONENT_BITS) == EXPONENT_BITS && (b & FRACTION_BITS) != 0
}

/// The position of a non-NaN double on the number line, as an integer that orders
/// doubles as their values do: its magnitude bits, negated when the sign bit is set.
/// Both zeros are at 0.
pub open spec fn order_key(b: u64) -> int {
    if (b & SIGN_BIT) != 0 {
        -((b & MAGNITUDE_BITS) as int)
    } else {
        (b & MAGNITUDE_BITS) as int
    }
}

/// Equality of doubles: false when either is NaN, true for the two zeros.
pub open spec fn number_eq(a: u64, b: u64) -> bool {
    !is_nan_bits(a) && !is_nan_bits(b) && order_key(a) == order_key(b)
}

/// `a < b` on doubles: false when either is NaN.
pub open spec fn number_lt(a: u64, b: u64) -> bool {
    !is_nan_bits(a) && !is_nan_bits(b) && order_key(a) < order_key(b)
}

/// Whether the double with bit pattern `b` is a NaN.
pub fn is_nan(b: u64) -> (r: bool)
    ensures
        r == is_nan_bits(b),
{
    (b & EXPONENT_BITS) == EXPONENT_BITS && (b & FRACTION_BITS) != 0
}

fn key_of(b: u64) -> (k: i128)
    ensures
        k == order_key(b),
{
    let m = (b & MAGNITUDE_BITS) as i128;
    if (b & SIGN_BIT) != 0 {
        -m
    } else {
        m
    }
}

/// `a == b` on doubles.
pub fn number_equal(a: u64, b: u64) -> (r: bool)
    ensures
        r == number_eq(a, b),
{
    !is_nan(a) && !is_nan(b) && key_of(a) == key_of(b)
}

/// `a < b` on doubles.
pub fn number_less(a: u64, b: u64) -> (r: bool)
    ensures
        r == number_lt(a, b),
{
    !is_nan(a) && !is_nan(b) && key_of(a) < key_of(b)
}

/// The negation of a double: its sign bit flipped.
pub open spec fn negate_bits(b: u64) -> u64 {
    b ^ SIGN_BIT
}

/// `-b` on doubles.
pub fn number_negate(b: u64) -> (r: u64)
    ensures
        r == negate_bits(b),
{
    b ^ SIGN_BIT
}

// ── Values ───────────────────────────────────────────────────────────────────

/// A value of the language. An object value refers by index to an object of the heap.
#[derive(Debug, Clone, Copy)]
pub enum Value {
    Bool(bool),
    Number(u64),
    Nil,
    Object(usize),
}

/// The language's equality: numbers compare as doubles, objects by identity.
pub open spec fn values_equal(a: Value, b: Value) -> bool {
    match (a, b) {
        (Value::Number(x), Value::Number(y)) => number_eq(x, y),
        (Value::Bool(x), Value::Bool(y)) => x == y,
        (Value::Nil, Value::Nil) => true,
        (Value::Object(x), Value::Object(y)) => x == y,
        _ => false,
    }
}

impl PartialEq for Value {
    fn eq(&self, other: &Self) -> (r: bool) {
        match (self, other) {
            (Value::Number(a), Value::Number(b)) => number_equal(*a, *b),
            (Value::Bool(a), Value::Bool(b)) => *a == *b,
            (Value::Nil, Value::Nil) => true,
            (Value::Object(a), Value::Object(b)) => *a == *b,
            _ => false,
        }
    }
}

impl PartialEqSpecImpl for Value {
    open spec fn obeys_eq_spec() -> bool {
        true
    }

    open spec fn eq_spec(&self, other: &Value) -> bool {
        values_equal(*self, *other)
    }
}

/// Whether a value counts as false in a condition: `nil` and `false`.
pub open spec fn falsey(v: Value) -> bool {
    v matches Value::Nil || v matches Value::Bool(false)
}

impl Value {
    /// Whether this value counts as false: `nil` or `false`.
    pub fn is_falsey(&self) -> (r: bool)
        ensures
            r == falsey(*self),
    {
        match self {
            Value::Nil => true,
            Value::Bool(b) => !*b,
            _ => false,
        }
    }

    /// Whether this value is `nil`.
    pub fn is_nil(&self) -> (r: bool)
        ensures
            r == (*self is Nil),
    {
        match self {
            Value::Nil => true,
            _ => false,
        }
    }

    /// Whether this value is a number.
    pub fn is_number(&self) -> (r: bool)
        ensures
            r == (*self is Number),
    {
        match self {
            Value::Number(_) => true,
            _ => false,
        }
    }

    /// Whether this value is a boolean.
    pub fn is_bool(&self) -> (r: bool)
        ensures
            r == (*self is Bool),
    {
        match self {
            Value::Bool(_) => true,
            _ => false,
        }
    }

    /// Whether this value refers to an object.
    pub fn is_object(&self) -> (r: bool)
        ensures
            r == (*self is Object),
    {
        match self {
            Value::Object(_) => true,
            _ => false,
        }
    }

    /// The bit pattern of a number.
    pub fn as_number(&self) -> (n: u64)
        requires
            *self is Number,
        ensures
            n == self->Number_0,
    {
        match self {
            Value::Number(n) => *n,
            _ => 0,
        }
    }

    /// The boolean this value holds.
    pub fn as_bool(&self) -> (b: bool)
        requires
            *self is Bool,
        ensures
            b == self->Bool_0,
    {
        match self {
            Value::Bool(b) => *b,
            _ => false,
        }
    }

    /// The heap index of an object.
    pub fn as_object(&self) -> (r: usize)
        requires
            *self is Object,
        ensures
            r == self->Object_0,
    {
        match self {
            Value::Object(r) => *r,
            _ => 0,
        }
    }

    /// What the object this value refers to holds, when it is an object of `heap`.
    pub open spec fn object_data(&self, heap: Seq<ObjectView>) -> Option<ObjData> {
        match *self {
            Value::Object(r) => if r < heap.len() {
                Some(heap[r as int].data)
            } else {
                None
            },
            _ => None,
        }
    }

    /// The object this value refers to, when it is an object of `heap`.
    fn as_object_type<'a>(&self, heap: &'a Heap) -> (r: Option<&'a ObjectType>)
        ensures
            r matches Some(t) ==> self.object_data(heap@) == Some(t@),
            r is None ==> self.object_data(heap@) is None,
    {
        match self {
            Value::Object(r) => if *r < heap.len() {
                Some(&heap.get(*r).obj_type)
            } else {
                None
            },
            _ => None,
        }
    }

    /// Whether this value refers to a string object of `heap`.
    pub fn is_string(&self, heap: &Heap) -> (r: bool)
        ensures
            r == (self.object_data(heap@) matches Some(ObjData::String(_))),
    {
        match self.as_object_type(heap) {
            Some(ObjectType::String(_)) => true,
            _ => false,
        }
    }

    /// Whether this value refers to a function object of `heap`.
    pub fn is_function(&self, heap: &Heap) -> (r: bool)
        ensures
            r == (self.object_data(heap@) matches Some(ObjData::Function(_))),
    {
        match self.as_object_type(heap) {
            Some(ObjectType::Function(_)) => true,
            _ => false,
        }
    }

    /// Whether this value refers to an array object of `heap`.
    pub fn is_array(&self, heap: &Heap) -> (r: bool)
        ensures
            r == (self.object_data(heap@) matches Some(ObjData::Array(_))),
    {
        match self.as_object_type(heap) {
            Some(ObjectType::Array(_)) => true,
            _ => false,
        }
    }

    /// Whether this value refers to a closure object of `heap`.
    pub fn is_closure(&self, heap: &Heap) -> (r: bool)
        ensures
            r == (self.object_data(heap@) matches Some(ObjData::Closure(_))),
    {
        match self.as_object_type(heap) {
            Some(ObjectType::Closure(_)) => true,
            _ => false,
        }
    }

    /// Whether this value refers to a native function object of `heap`.
    pub fn is_native(&self, heap: &Heap) -> (r: bool)
        ensures
            r == (self.object_data(heap@) matches Some(ObjData::Native(_))),
    {
        match self.as_object_type(heap) {
            Some(ObjectType::Native(_)) => true,
            _ => false,
        }
    }

    /// The function this value refers to, when it refers to a function object of `heap`.
    pub fn as_function<'a>(&self, heap: &'a Heap) -> (r: Option<&'a FunctionObject>)
        ensures
            r is Some <==> (self.object_data(heap@) matches Some(ObjData::Function(_))),
            r matches Some(f) ==> self.object_data(heap@) == Some(ObjData::Function(f@)),
    {
        match self.as_object_type(heap) {
            Some(ObjectType::Function(f)) => Some(f),
            _ => None,
        }
    }

    /// The text this value refers to, when it refers to a string object of `heap`.
    pub fn as_string<'a>(&self, heap: &'a Heap) -> (r: Option<&'a str>)
        ensures
            r is Some <==> (self.object_data(heap@) matches Some(ObjData::String(_))),
            r matches Some(s) ==> self.object_data(heap@) == Some(ObjData::String(s@)),
    {
        match self.as_object_type(heap) {
            Some(ObjectType::String(s)) => Some(s.as_str()),
            _ => None,
        }
    }

    /// The elements this value refers to, when it refers to an array object of `heap`.
    pub fn as_array<'a>(&self, heap: &'a Heap) -> (r: Option<&'a Vec<Value>>)
        ensures
            r is Some <==> (self.object_data(heap@) matches Some(ObjData::Array(_))),
            r matches Some(a) ==> self.object_data(heap@) == Some(ObjData::Array(a@)),
    {
        match self.as_object_type(heap) {
            Some(ObjectType::Array(a)) => Some(a),
            _ => None,
        }
    }

    /// The elements this value refers to, for changing them, when it refers to an array object of `heap`.
    pub fn as_array_mut<'a>(&self, heap: &'a mut Heap) -> (r: Option<&'a mut Vec<Value>>)
        ensures
            r is Some <==> (self.object_data(old(heap)@) matches Some(ObjData::Array(_))),
            r matches Some(x) ==> self.object_data(old(heap)@) == Some(ObjData::Array((*x)@)) && final(heap)@
                == old(heap)@.update(
                self->Object_0 as int,
                ObjectView { data: ObjData::Array((*final(x))@), ..old(heap)@[self->Object_0 as int] },
            ),
            r is None ==> final(heap)@ == old(heap)@,
    {
        match self {
            Value::Object(i) => if *i < heap.len() {
                let o = heap.get_mut(*i);
                o.as_array_mut()
            } else {
                None
            },
            _ => None,
        }
    }

    /// The function this value refers to, for changing it, when it refers to a function object of `heap`.
    pub fn as_function_mut<'a>(&self, heap: &'a mut Heap) -> (r: Option<&'a mut FunctionObject>)
        ensures
            r is Some <==> (self.object_data(old(heap)@) matches Some(ObjData::Function(_))),
            r matches Some(x) ==> self.object_data(old(heap)@) == Some(ObjData::Function((*x)@)) && final(heap)@
                == old(heap)@.update(
                self->Object_0 as int,
                ObjectView { data: ObjData::Function((*final(x))@), ..old(heap)@[self->Object_0 as int] },
            ),
            r is None ==> final(heap)@ == old(heap)@,
    {
        match self {
            Value::Object(i) => if *i < heap.len() {
                let o = heap.get_mut(*i);
                o.as_function_mut()
            } else {
                None
            },
            _ => None,
        }
    }

    /// The closure this value refers to, for changing it, when it refers to a closure object of `heap`.
    pub fn as_closure_mut<'a>(&self, heap: &'a mut Heap) -> (r: Option<&'a mut ClosureObject>)
        ensures
            r is Some <==> (self.object_data(old(heap)@) matches Some(ObjData::Closure(_))),
            r matches Some(x) ==> self.object_data(old(heap)@) == Some(ObjData::Closure((*x)@)) && final(heap)@
                == old(heap)@.update(
                self->Object_0 as int,
                ObjectView { data: ObjData::Closure((*final(x))@), ..old(heap)@[self->Object_0 as int] },
            ),
            r is None ==> final(heap)@ == old(heap)@,
    {
        match self {
            Value::Object(i) => if *i < heap.len() {
                let o = heap.get_mut(*i);
                o.as_closure_mut()
            } else {
                None
            },
            _ => None,
        }
    }

    /// The built-in function this value refers to, for changing it, when it refers to one of `heap`.
    pub fn as_native_mut<'a>(&self, heap: &'a mut Heap) -> (r: Option<&'a mut NativeFunction>)
        ensures
            r is Some <==> (self.object_data(old(heap)@) matches Some(ObjData::Native(_))),
            r matches Some(x) ==> self.object_data(old(heap)@) == Some(ObjData::Native((*x)@)) && final(heap)@
                == old(heap)@.update(
                self->Object_0 as int,
                ObjectView { data: ObjData::Native((*final(x))@), ..old(heap)@[self->Object_0 as int] },
            ),
            r is None ==> final(heap)@ == old(heap)@,
    {
        match self {
            Value::Object(i) => if *i < heap.len() {
                let o = heap.get_mut(*i);
                o.as_native_mut()
            } else {
                None
            },
            _ => None,
        }
    }

    /// `>` on two numbers; an error for anything else.
    pub fn greater_than(&self, other: &Self) -> (r: Result<Value, &'static str>)
        ensures
            r == (match (*self, *other) {
                (Value::Number(a), Value::Number(b)) => Ok(Value::Bool(number_lt(b, a))),
                _ => Err("Operands must be numbers."),
            }),
    {
        match (self, other) {
            (Value::Number(a), Value::Number(b)) => Ok(Value::Bool(number_less(*b, *a))),
            _ => Err("Operands must be numbers."),
        }
    }

    /// `<` on two numbers; an error for anything else.
    pub fn less_than(&self, other: &Self) -> (r: Result<Value, &'static str>)
        ensures
            r == (match (*self, *other) {
                (Value::Number(a), Value::Number(b)) => Ok(Value::Bool(number_lt(a, b))),
                _ => Err("Operands must be numbers."),
            }),
    {
        match (self, other) {
            (Value::Number(a), Value::Number(b)) => Ok(Value::Bool(number_less(*a, *b))),
            _ => Err("Operands must be numbers."),
        }
    }
}

// ── Objects ──────────────────────────────────────────────────────────────────

/// A heap object and its mark for the collector.
pub struct Object {
    pub obj_type: ObjectType,
    pub is_marked: bool,
}

/// What a heap object holds.
pub enum ObjectType {
    String(String),
    Function(FunctionObject),
    Native(NativeFunction),
    Array(Vec<Value>),
    Closure(ClosureObject),
}

/// What an object holds, as mathematical values.
pub enum ObjData {
    String(Seq<char>),
    Function(FunctionView),
    Native(NativeView),
    Array(Seq<Value>),
    Closure(ClosureView),
}

/// The abstract state of an object: what it holds and its mark.
pub struct ObjectView {
    pub data: ObjData,
    pub is_marked: bool,
}

impl View for ObjectType {
    type V = ObjData;

    open spec fn view(&self) -> ObjData {
        match self {
            ObjectType::String(s) => ObjData::String(s@),
            ObjectType::Function(f) => ObjData::Function(f@),
            ObjectType::Native(n) => ObjData::Native(n@),
            ObjectType::Array(v) => ObjData::Array(v@),
            ObjectType::Closure(c) => ObjData::Closure(c@),
        }
    }
}

impl View for Object {
    type V = ObjectView;

    open spec fn view(&self) -> ObjectView {
        ObjectView { data: self.obj_type@, is_marked: self.is_marked }
    }
}

impl Object {
    /// The text of a string object.
    pub fn as_string(&self) -> (s: &str)
        requires
            self.obj_type is String,
        ensures
            s@ == self.obj_type->String_0@,
    {
        match &self.obj_type {
            ObjectType::String(s) => s.as_str(),
            _ => "",
        }
    }

    /// The function this object holds, if it is a function object.
    pub fn as_function(&self) -> (r: Option<&FunctionObject>)
        ensures
            r is Some <==> self.obj_type is Function,
            r matches Some(f) ==> *f == self.obj_type->Function_0,
    {
        match &self.obj_type {
            ObjectType::Function(f) => Some(f),
            _ => None,
        }
    }

    /// The elements this object holds, if it is an array object.
    pub fn as_array(&self) -> (r: Option<&Vec<Value>>)
        ensures
            r is Some <==> self.obj_type is Array,
            r matches Some(a) ==> *a == self.obj_type->Array_0,
    {
        match &self.obj_type {
            ObjectType::Array(a) => Some(a),
            _ => None,
        }
    }

    /// The elements this object holds, for changing them, if it is an array object.
    pub fn as_array_mut(&mut self) -> (r: Option<&mut Vec<Value>>)
        ensures
            r is Some <==> old(self).obj_type is Array,
            r matches Some(a) ==> *a == old(self).obj_type->Array_0 && final(self).obj_type == ObjectType::Array(*final(a))
                && final(self).is_marked == old(self).is_marked,
            r is None ==> *final(self) == *old(self),
    {
        match &mut self.obj_type {
            ObjectType::Array(a) => Some(a),
            _ => None,
        }
    }

    /// The function this object holds, for changing it, if it is a function object.
    pub fn as_function_mut(&mut self) -> (r: Option<&mut FunctionObject>)
        ensures
            r is Some <==> old(self).obj_type is Function,
            r matches Some(f) ==> *f == old(self).obj_type->Function_0 && final(self).obj_type == ObjectType::Function(
                *final(f),
            ) && final(self).is_marked == old(self).is_marked,
            r is None ==> *final(self) == *old(self),
    {
        match &mut self.obj_type {
            ObjectType::Function(f) => Some(f),
            _ => None,
        }
    }

    /// The built-in function this object holds, for changing it, if it is one.
    pub fn as_native_mut(&mut self) -> (r: Option<&mut NativeFunction>)
        ensures
            r is Some <==> old(self).obj_type is Native,
            r matches Some(n) ==> *n == old(self).obj_type->Native_0 && final(self).obj_type == ObjectType::Native(
                *final(n),
            ) && final(self).is_marked == old(self).is_marked,
            r is None ==> *final(self) == *old(self),
    {
        match &mut self.obj_type {
            ObjectType::Native(n) => Some(n),
            _ => None,
        }
    }

    /// The closure this object holds, for changing it, if it is a closure object.
    pub fn as_closure_mut(&mut self) -> (r: Option<&mut ClosureObject>)
        ensures
            r is Some <==> old(self).obj_type is Closure,
            r matches Some(c) ==> *c == old(self).obj_type->Closure_0 && final(self).obj_type == ObjectType::Closure(
                *final(c),
            ) && final(self).is_marked == old(self).is_marked,
            r is None ==> *final(self) == *old(self),
    {
        match &mut self.obj_type {
            ObjectType::Closure(c) => Some(c),
            _ => None,
        }
    }

    /// The built-in function this object holds, if it is one.
    pub fn as_native(&self) -> (r: Option<&NativeFunction>)
        ensures
            r is Some <==> self.obj_type is Native,
            r matches Some(n) ==> *n == self.obj_type->Native_0,
    {
        match &self.obj_type {
            ObjectType::Native(n) => Some(n),
            _ => None,
        }
    }

    /// The closure this object holds, if it is a closure object.
    pub fn as_closure(&self) -> (r: Option<&ClosureObject>)
        ensures
            r is Some <==> self.obj_type is Closure,
            r matches Some(c) ==> *c == self.obj_type->Closure_0,
    {
        match &self.obj_type {
            ObjectType::Closure(c) => Some(c),
            _ => None,
        }
    }
}

} // verus!
