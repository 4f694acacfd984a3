use vstd::prelude::*;
use crate::value::{ObjData, ObjectType, ObjectView, Value};
use crate::function::FunctionObject;
use crate::heap::Heap;

verus! {

/// A function together with the variables it captured. `function` is the heap index of
/// a function object; each captured variable is the heap index of an upvalue object,
/// or nothing while it is not yet set.
pub struct ClosureObject {
    pub function: usize,
    pub upvalues: Vec<Option<usize>>,
}

pub struct ClosureView {
    pub function: usize,
    pub upvalues: Seq<Option<usize>>,
}

impl View for ClosureObject {
    type V = ClosureView;

    open spec fn view(&self) -> ClosureView {
        ClosureView { function: self.function, upvalues: self.upvalues@ }
    }
}

impl ClosureObject {
    /// The function this closure runs, for changing it, when it is a function object of
    /// `heap`.
    pub fn function_mut<'a>(&self, heap: &'a mut Heap) -> (r: Option<&'a mut FunctionObject>)
        ensures
            r is Some <==> self.function < old(heap)@.len() && old(heap)@[self.function as int].data is Function,
            r matches Some(f) ==> old(heap)@[self.function as int].data == ObjData::Function((*f)@) && final(heap)@
                == old(heap)@.update(
                self.function as int,
                ObjectView { data: ObjData::Function((*final(f))@), ..old(heap)@[self.function as int] },
            ),
            r is None ==> final(heap)@ == old(heap)@,
    {
        if self.function < heap.len() {
            heap.get_mut(self.function).as_function_mut()
        } else {
            None
        }
    }

    /// The function this closure runs, when it is a function object of `heap`.
    pub fn function_ref<'a>(&self, heap: &'a Heap) -> (r: Option<&'a FunctionObject>)
        ensures
            r is Some <==> self.function < heap@.len() && heap@[self.function as int].data is Function,
            r matches Some(f) ==> heap@[self.function as int].data == ObjData::Function(f@),
    {
        if self.function < heap.len() {
            match &heap.get(self.function).obj_type {
                ObjectType::Function(f) => Some(f),
                _ => None,
            }
        } else {
            None
        }
    }

    /// A closure of the function object at `function`, with `upvalue_count` unset
    /// captured variables.
    pub fn new(function: usize, upvalue_count: usize) -> (c: ClosureObject)
        ensures
            c@.function == function,
            c@.upvalues == Seq::new(upvalue_count as nat, |i: int| None::<usize>),
    {
        let mut upvalues: Vec<Option<usize>> = Vec::new();
        let mut i: usize = 0;
        while i < upvalue_count
            invariant
                i <= upvalue_count,
                upvalues@ == Seq::new(i as nat, |j: int| None::<usize>),
            decreases upvalue_count - i,
        {
            upvalues.push(None);
            i = i + 1;
            proof {
                assert(upvalues@ =~= Seq::new(i as nat, |j: int| None::<usize>));
            }
        }
        proof {
            assert(upvalues@ =~= Seq::new(upvalue_count as nat, |j: int| None::<usize>));
        }
        ClosureObject { function, upvalues }
    }
}

/// A call in progress: the closure called (a heap index), the offset of its next
/// instruction, and where its slots begin on the value stack.
#[derive(Debug, Clone, Copy, PartialEq, Eq, Structural)]
pub struct CallFrame {
    pub closure: usize,
    pub ip: usize,
    pub stack_base: usize,
}

/// A variable that a function being compiled captures: a slot of the enclosing
/// function (`is_local`) or one of the enclosing function's own captures.
#[derive(Debug, Clone, Copy, PartialEq, Eq, Structural)]
pub struct CompilerUpvalue {
    pub index: u8,
    pub is_local: bool,
}

/// A captured variable at run time: the stack slot it lives in while open, the value it
/// holds once closed, and the next open upvalue.
pub struct UpValueObject {
    pub location: usize,
    pub closed: Value,
    pub next: Option<usize>,
}

impl UpValueObject {
    /// An open upvalue for the stack slot `location`.
    pub fn new(location: usize) -> (u: UpValueObject)
        ensures
            u.location == location,
            u.closed is Nil,
            u.next is None,
    {
        UpValueObject { location, closed: Value::Nil, next: None }
    }
}

} // verus!
