use vstd::prelude::*;
use crate::chunk::{Chunk, ChunkView, OpCode, decode_op, op_byte};
use crate::closure::{CallFrame, ClosureObject};
use crate::function::{FunctionObject, FunctionView};
use crate::heap::Heap;
use crate::native::{NativeFunction, NativeKind, get_native_functions, native_table};
use crate::laws::{
    keeps_interning, keeps_strings, law_strings_persist, law_new_machine_interned, law_strings_stay_interned, lemma_define_native_keeps, lemma_intern_keeps,
    lemma_push_other, strings_interned,
};
use crate::value::{
    ObjData, Object, ObjectType, ObjectView, Value, falsey, negate_bits, number_lt, values_equal,
    number_less, number_negate,
};

verus! {

broadcast use vstd::seq_lib::group_seq_properties;

/// How running a program ended.
#[derive(Debug, Clone, Copy, PartialEq, Eq, Structural)]
pub enum InterpretResult {
    InterpretOk,
    InterpretCompileError,
    InterpretRuntimeError,
}

/// The arithmetic the machine hands out: it is done on doubles.
#[derive(Debug, Clone, Copy, PartialEq, Eq, Structural)]
pub enum NumericOp {
    Add,
    Subtract,
    Multiply,
    Divide,
}

/// Why a program stopped with a runtime error.
#[derive(Debug, Clone, Copy, PartialEq, Eq, Structural)]
pub enum RuntimeError {
    /// A call with the wrong number of arguments; `callee` is the heap index of the
    /// closure or native function called.
    Arity { arity: usize, got: usize, callee: usize },
    StackUnderflow,
    OperandsNumbersOrStrings,
    OperandsNumbers,
    OperandNumber,
    InvalidFunctionType,
    NotAnObject,
    NotAFunction,
    NotAnArray,
    IndexNotNumber,
    IndexNotInteger,
    IndexOutOfBounds { index: usize, len: usize },
    LengthNotNumber,
    /// A global that is not defined; its name is the string object at this heap index.
    UndefinedVariable(usize),
    /// A native function reported an error.
    Native,
}

/// What the machine asks of its driver after an instruction.
#[derive(Debug, Clone, Copy, PartialEq)]
pub enum Action {
    /// Go on with the next instruction.
    Continue,
    /// The program returned from its top level.
    Finished,
    /// Print this value.
    Print(Value),
    /// Compute this arithmetic on the two doubles and reply with the result.
    Arithmetic(NumericOp, u64, u64),
    /// Reply with the length that this double gives (`as usize`).
    ArrayLength(u64),
    /// Reply with this length as a double.
    LengthValue(usize),
    /// Reply with this double as an index when it is a non-negative integer.
    Index(u64),
    /// Run this native function on the top `usize` values of the stack and reply.
    CallNative(NativeKind, usize),
    /// The program stopped with a runtime error; the machine holds its trace.
    Error(RuntimeError),
    /// The bytecode or the driver did what the machine cannot carry out.
    Fault,
}

/// The driver's answer to a request.
#[derive(Debug, Clone, Copy, PartialEq)]
pub enum Reply {
    Number(u64),
    Length(usize),
    Index(Option<usize>),
    /// The native function's result, or nothing when it failed.
    Native(Option<Value>),
}

/// What the machine is waiting for.
#[derive(Debug, Clone, Copy, PartialEq)]
pub enum Pending {
    Nothing,
    Arithmetic,
    MakeArray,
    Len,
    GetIndex { array: usize, len: usize },
    SetIndex { array: usize, value: Value, len: usize },
    Native { arg_count: usize },
}

/// The abstract state of the machine.
pub struct VmView {
    pub stack: Seq<Value>,
    pub heap: Seq<ObjectView>,
    pub interned: Seq<usize>,
    pub globals: Seq<(usize, Value)>,
    pub frames: Seq<CallFrame>,
    pub pending: Pending,
    pub trace: Seq<CallFrame>,
}

// ── Strings and globals ──────────────────────────────────────────────────────

/// The first position in `interned` of a string object whose text is `text`.
pub open spec fn find_interned(heap: Seq<ObjectView>, interned: Seq<usize>, text: Seq<char>) -> Option<int>
    decreases interned.len(),
{
    if interned.len() == 0 {
        None
    } else {
        match find_interned(heap, interned.drop_last(), text) {
            Some(i) => Some(i),
            None => {
                let r = interned.last();
                if r < heap.len() && heap[r as int].data == ObjData::String(text) {
                    Some(interned.len() - 1)
                } else {
                    None
                }
            },
        }
    }
}

/// Interning a text: the string object already made for it, or a new one.
pub open spec fn intern_spec(v: VmView, text: Seq<char>) -> (VmView, usize) {
    match find_interned(v.heap, v.interned, text) {
        Some(i) => (v, v.interned[i]),
        None => (
            VmView {
                heap: v.heap.push(ObjectView { data: ObjData::String(text), is_marked: false }),
                interned: v.interned.push(v.heap.len() as usize),
                ..v
            },
            v.heap.len() as usize,
        ),
    }
}

/// The first position of the global named by the string object `name`.
pub open spec fn find_global(globals: Seq<(usize, Value)>, name: usize) -> Option<int>
    decreases globals.len(),
{
    if globals.len() == 0 {
        None
    } else {
        match find_global(globals.drop_last(), name) {
            Some(i) => Some(i),
            None => if globals.last().0 == name {
                Some(globals.len() - 1)
            } else {
                None
            },
        }
    }
}

/// The value of the global `name`, if it is defined.
pub open spec fn global_value(globals: Seq<(usize, Value)>, name: usize) -> Option<Value> {
    match find_global(globals, name) {
        Some(i) => Some(globals[i].1),
        None => None,
    }
}

/// Defines or sets the global `name`.
pub open spec fn global_insert(globals: Seq<(usize, Value)>, name: usize, value: Value) -> Seq<(usize, Value)> {
    match find_global(globals, name) {
        Some(i) => globals.update(i, (name, value)),
        None => globals.push((name, value)),
    }
}


// ── Decoding ─────────────────────────────────────────────────────────────────

/// A decoded instruction: its opcode, its one-byte operand or its two-byte operand,
/// and the offset just after it.
#[derive(Debug, Clone, Copy, PartialEq, Eq, Structural)]
pub struct Instr {
    pub op: OpCode,
    pub operand: u8,
    pub short: u16,
    pub next: usize,
}

/// How many operand bytes follow an opcode.
pub open spec fn operand_size(op: OpCode) -> int {
    match op {
        OpCode::OpConstant | OpCode::OpDefineGlobal | OpCode::OpGetGlobal | OpCode::OpSetGlobal
        | OpCode::OpClosure | OpCode::OpGetLocal | OpCode::OpSetLocal | OpCode::OpPopN
        | OpCode::OpYield | OpCode::OpCall | OpCode::OpArray => 1,
        OpCode::OpJumpIfFalse | OpCode::OpJump | OpCode::OpLoop => 2,
        _ => 0,
    }
}

/// The function object that a closure object runs, when both are what they should be.
pub open spec fn closure_function(heap: Seq<ObjectView>, closure: usize) -> Option<FunctionView> {
    if closure < heap.len() && heap[closure as int].data is Closure {
        let f = heap[closure as int].data->Closure_0.function;
        if f < heap.len() && heap[f as int].data is Function {
            Some(heap[f as int].data->Function_0)
        } else {
            None
        }
    } else {
        None
    }
}

/// The chunk that the innermost call runs.
pub open spec fn current_chunk(v: VmView) -> Option<ChunkView> {
    if v.frames.len() == 0 {
        None
    } else {
        match closure_function(v.heap, v.frames.last().closure) {
            Some(f) => Some(f.chunk),
            None => None,
        }
    }
}

/// The instruction at the innermost call's offset.
pub open spec fn decode_at(v: VmView) -> Option<Instr> {
    match current_chunk(v) {
        None => None,
        Some(c) => {
            let ip = v.frames.last().ip as int;
            if ip < c.code.len() {
                match decode_op(c.code[ip]) {
                    None => None,
                    Some(op) => {
                        let n = operand_size(op);
                        if ip + 1 + n <= c.code.len() {
                            Some(
                                Instr {
                                    op,
                                    operand: if n >= 1 {
                                        c.code[ip + 1]
                                    } else {
                                        0
                                    },
                                    short: if n == 2 {
                                        (c.code[ip + 1] as int * 256 + c.code[ip + 2] as int) as u16
                                    } else {
                                        0
                                    },
                                    next: (ip + 1 + n) as usize,
                                },
                            )
                        } else {
                            None
                        }
                    },
                }
            } else {
                None
            }
        }
    }
}

/// The state with the innermost call's offset set to `ip`.
pub open spec fn set_ip(v: VmView, ip: usize) -> VmView {
    VmView { frames: v.frames.update(v.frames.len() - 1, CallFrame { ip, ..v.frames.last() }), ..v }
}

// ── Instruction semantics ────────────────────────────────────────────────────

/// The first `n` values of `s`, or all of them when there are fewer.
pub open spec fn truncated(s: Seq<Value>, n: int) -> Seq<Value> {
    if n < s.len() {
        s.subrange(0, n)
    } else {
        s
    }
}

/// The state with the stack `stack`.
pub open spec fn with_stack(v: VmView, stack: Seq<Value>) -> VmView {
    VmView { stack, ..v }
}

/// Going on from state `v`.
pub open spec fn cont(v: VmView) -> (VmView, Action) {
    (v, Action::Continue)
}

/// The driver or the bytecode did what the machine cannot carry out: nothing changes.
pub open spec fn fault(v: VmView) -> (VmView, Action) {
    (v, Action::Fault)
}

/// A runtime error: the calls in progress become the trace, innermost first, and the
/// stack and the calls are cleared.
pub open spec fn fail(v: VmView, e: RuntimeError) -> (VmView, Action) {
    (
        VmView {
            stack: Seq::empty(),
            frames: Seq::empty(),
            trace: v.frames.reverse(),
            pending: Pending::Nothing,
            ..v
        },
        Action::Error(e),
    )
}

/// Calls the value `arg_count` below the top of the stack with the values above it.
pub open spec fn call_spec(v: VmView, arg_count: int) -> (VmView, Action) {
    if v.stack.len() < arg_count + 1 {
        fault(v)
    } else {
        let base = v.stack.len() - arg_count - 1;
        match v.stack[base] {
            Value::Object(r) => if r >= v.heap.len() {
                fault(v)
            } else {
                match v.heap[r as int].data {
                    ObjData::Closure(c) => match closure_function(v.heap, r) {
                        None => fault(v),
                        Some(f) => if f.arity != arg_count {
                            fail(v, RuntimeError::Arity { arity: f.arity, got: arg_count as usize, callee: r })
                        } else {
                            cont(VmView {
                                frames: v.frames.push(CallFrame { closure: r, ip: 0, stack_base: base as usize }),
                                ..v
                            })
                        },
                    },
                    ObjData::Native(n) => if n.arity != arg_count {
                        fail(v, RuntimeError::Arity { arity: n.arity, got: arg_count as usize, callee: r })
                    } else {
                        (
                            VmView { pending: Pending::Native { arg_count: arg_count as usize }, ..v },
                            Action::CallNative(n.kind, arg_count as usize),
                        )
                    },
                    _ => fail(v, RuntimeError::InvalidFunctionType),
                }
            },
            _ => cont(v),
        }
    }
}

/// Returns from the innermost call with the value on top of the stack.
pub open spec fn return_spec(v: VmView) -> (VmView, Action) {
    if v.stack.len() == 0 || v.frames.len() == 0 {
        fault(v)
    } else {
        let result = v.stack.last();
        let frame = v.frames.last();
        let frames = v.frames.drop_last();
        if frames.len() == 0 {
            (VmView { stack: v.stack.drop_last(), frames, ..v }, Action::Finished)
        } else {
            cont(VmView {
                stack: truncated(v.stack.drop_last(), frame.stack_base as int).push(result),
                frames,
                ..v
            })
        }
    }
}

/// Makes a closure of the function constant `index`.
pub open spec fn closure_spec(v: VmView, c: ChunkView, index: int) -> (VmView, Action) {
    if index >= c.constants.len() {
        fault(v)
    } else {
        match c.constants[index] {
            Value::Object(r) => if r >= v.heap.len() {
                fault(v)
            } else {
                match v.heap[r as int].data {
                    ObjData::Function(f) => {
                        let clo = ObjectView {
                            data: ObjData::Closure(crate::closure::ClosureView {
                                function: r,
                                upvalues: Seq::new(f.upvalue_count as nat, |i: int| None::<usize>),
                            }),
                            is_marked: false,
                        };
                        cont(VmView {
                            heap: v.heap.push(clo),
                            stack: v.stack.push(Value::Object(v.heap.len() as usize)),
                            ..v
                        })
                    },
                    _ => fail(v, RuntimeError::NotAFunction),
                }
            },
            _ => fail(v, RuntimeError::NotAnObject),
        }
    }
}

/// The string object that names a global, from constant `index`.
pub open spec fn name_constant(c: ChunkView, index: int) -> Option<usize> {
    if index < c.constants.len() {
        match c.constants[index] {
            Value::Object(r) => Some(r),
            _ => None,
        }
    } else {
        None
    }
}

/// Pops an array: its heap index and length, or the error.
pub open spec fn pop_array_spec(v: VmView) -> Option<Result<(VmView, usize, usize), RuntimeError>> {
    if v.stack.len() == 0 {
        None
    } else {
        let v1 = with_stack(v, v.stack.drop_last());
        match v.stack.last() {
            Value::Object(r) => if r >= v.heap.len() {
                None
            } else {
                match v.heap[r as int].data {
                    ObjData::Array(a) => Some(Ok((v1, r, a.len() as usize))),
                    _ => Some(Err(RuntimeError::NotAnArray)),
                }
            },
            _ => Some(Err(RuntimeError::NotAnArray)),
        }
    }
}

/// Pops an index and then an array below it, and asks for the index to be checked.
pub open spec fn index_spec(v: VmView, value: Option<Value>) -> (VmView, Action) {
    if v.stack.len() == 0 {
        fault(v)
    } else {
        let idx = v.stack.last();
        let v1 = with_stack(v, v.stack.drop_last());
        match idx {
            Value::Number(n) => match pop_array_spec(v1) {
                None => fault(v1),
                Some(Err(e)) => fail(v1, e),
                Some(Ok((v2, r, len))) => (
                    VmView {
                        pending: match value {
                            Some(x) => Pending::SetIndex { array: r, value: x, len },
                            None => Pending::GetIndex { array: r, len },
                        },
                        ..v2
                    },
                    Action::Index(n),
                ),
            },
            _ => fail(v1, RuntimeError::IndexNotNumber),
        }
    }
}

/// The two-operand arithmetic instructions.
pub open spec fn arithmetic_spec(v: VmView, op: NumericOp) -> (VmView, Action) {
    let n = v.stack.len();
    if n < 2 {
        fail(v, RuntimeError::StackUnderflow)
    } else {
        match (v.stack[n - 2], v.stack[n - 1]) {
            (Value::Number(a), Value::Number(b)) => (
                VmView { pending: Pending::Arithmetic, ..v },
                Action::Arithmetic(op, a, b),
            ),
            _ => fail(v, RuntimeError::OperandsNumbers),
        }
    }
}

/// Addition: of numbers (handed out), or concatenation of strings.
pub open spec fn add_spec(v: VmView) -> (VmView, Action) {
    let n = v.stack.len();
    if n < 2 {
        fail(v, RuntimeError::StackUnderflow)
    } else {
        match (v.stack[n - 2], v.stack[n - 1]) {
            (Value::Number(a), Value::Number(b)) => (
                VmView { pending: Pending::Arithmetic, ..v },
                Action::Arithmetic(NumericOp::Add, a, b),
            ),
            (Value::Object(x), Value::Object(y)) => if x >= v.heap.len() || y >= v.heap.len() {
                fault(v)
            } else {
                match (v.heap[x as int].data, v.heap[y as int].data) {
                    (ObjData::String(sa), ObjData::String(sb)) => {
                        let (v1, r) = intern_spec(v, sa + sb);
                        cont(with_stack(v1, v.stack.drop_last().drop_last().push(Value::Object(r))))
                    },
                    _ => fail(v, RuntimeError::OperandsNumbersOrStrings),
                }
            },
            _ => fail(v, RuntimeError::OperandsNumbersOrStrings),
        }
    }
}

/// A comparison of two numbers.
pub open spec fn compare_spec(v: VmView, greater: bool) -> (VmView, Action) {
    let n = v.stack.len();
    if n < 2 {
        fail(v, RuntimeError::StackUnderflow)
    } else {
        match (v.stack[n - 2], v.stack[n - 1]) {
            (Value::Number(a), Value::Number(b)) => cont(
                with_stack(
                    v,
                    v.stack.drop_last().drop_last().push(
                        Value::Bool(
                            if greater {
                                number_lt(b, a)
                            } else {
                                number_lt(a, b)
                            },
                        ),
                    ),
                ),
            ),
            _ => fail(v, RuntimeError::OperandsNumbers),
        }
    }
}

/// What one instruction does, once the offset has moved past it.
pub open spec fn exec_spec(v: VmView, c: ChunkView, ins: Instr) -> (VmView, Action) {
    let n = v.stack.len() as int;
    let top = v.stack.last();
    let base = v.frames.last().stack_base as int;
    match ins.op {
        OpCode::OpCall => call_spec(v, ins.operand as int),
        OpCode::OpClosure => closure_spec(v, c, ins.operand as int),
        OpCode::OpGetUpvalue | OpCode::OpSetUpvalue => cont(v),
        OpCode::OpReturn => return_spec(v),
        OpCode::OpYield => if n == 0 || n - 1 < ins.operand {
            fault(v)
        } else {
            cont(with_stack(v, v.stack.drop_last().subrange(0, n - 1 - ins.operand).push(top)))
        },
        OpCode::OpJumpIfFalse => if n == 0 || ins.next + ins.short > usize::MAX {
            fault(v)
        } else if falsey(top) {
            cont(set_ip(v, (ins.next + ins.short) as usize))
        } else {
            cont(v)
        },
        OpCode::OpJump => if ins.next + ins.short > usize::MAX {
            fault(v)
        } else {
            cont(set_ip(v, (ins.next + ins.short) as usize))
        },
        OpCode::OpLoop => if ins.next < ins.short {
            fault(v)
        } else {
            cont(set_ip(v, (ins.next - ins.short) as usize))
        },
        OpCode::OpArray => if n < ins.operand {
            fault(v)
        } else {
            let values = v.stack.subrange(n - ins.operand, n);
            cont(VmView {
                heap: v.heap.push(ObjectView { data: ObjData::Array(values), is_marked: false }),
                stack: v.stack.subrange(0, n - ins.operand).push(Value::Object(v.heap.len() as usize)),
                ..v
            })
        },
        OpCode::OpMakeArray => if n == 0 {
            fault(v)
        } else {
            match top {
                Value::Number(x) => (
                    VmView { stack: v.stack.drop_last(), pending: Pending::MakeArray, ..v },
                    Action::ArrayLength(x),
                ),
                _ => fail(with_stack(v, v.stack.drop_last()), RuntimeError::LengthNotNumber),
            }
        },
        OpCode::OpLen => match pop_array_spec(v) {
            None => fault(v),
            Some(Err(e)) => fail(with_stack(v, v.stack.drop_last()), e),
            Some(Ok((v1, r, len))) => (VmView { pending: Pending::Len, ..v1 }, Action::LengthValue(len)),
        },
        OpCode::OpGetIndex => index_spec(v, None),
        OpCode::OpSetIndex => if n == 0 {
            fault(v)
        } else {
            index_spec(with_stack(v, v.stack.drop_last()), Some(top))
        },
        OpCode::OpConstant => if ins.operand >= c.constants.len() {
            fault(v)
        } else {
            cont(with_stack(v, v.stack.push(c.constants[ins.operand as int])))
        },
        OpCode::OpNil => cont(with_stack(v, v.stack.push(Value::Nil))),
        OpCode::OpTrue => cont(with_stack(v, v.stack.push(Value::Bool(true)))),
        OpCode::OpFalse => cont(with_stack(v, v.stack.push(Value::Bool(false)))),
        OpCode::OpPop => if n == 0 {
            cont(v)
        } else {
            cont(with_stack(v, v.stack.drop_last()))
        },
        OpCode::OpPopN => if n < ins.operand {
            fault(v)
        } else {
            cont(with_stack(v, v.stack.subrange(0, n - ins.operand)))
        },
        OpCode::OpDup => if n == 0 {
            fault(v)
        } else {
            cont(with_stack(v, v.stack.push(top)))
        },
        OpCode::OpDefineGlobal => match name_constant(c, ins.operand as int) {
            None => fault(v),
            Some(name) => if n == 0 {
                fault(v)
            } else {
                cont(VmView {
                    stack: v.stack.drop_last(),
                    globals: global_insert(v.globals, name, top),
                    ..v
                })
            },
        },
        OpCode::OpGetGlobal => match name_constant(c, ins.operand as int) {
            None => fault(v),
            Some(name) => match global_value(v.globals, name) {
                Some(x) => cont(with_stack(v, v.stack.push(x))),
                None => fail(v, RuntimeError::UndefinedVariable(name)),
            },
        },
        OpCode::OpSetGlobal => match name_constant(c, ins.operand as int) {
            None => fault(v),
            Some(name) => if find_global(v.globals, name) is Some {
                if n == 0 {
                    fault(v)
                } else {
                    cont(VmView { globals: global_insert(v.globals, name, top), ..v })
                }
            } else {
                fail(v, RuntimeError::UndefinedVariable(name))
            },
        },
        OpCode::OpGetLocal => if base + ins.operand >= n {
            fault(v)
        } else {
            cont(with_stack(v, v.stack.push(v.stack[base + ins.operand])))
        },
        OpCode::OpSetLocal => if n == 0 || base + ins.operand >= n {
            fault(v)
        } else {
            cont(with_stack(v, v.stack.update(base + ins.operand, top)))
        },
        OpCode::OpNegate => match top {
            Value::Number(x) => if n > 0 {
                cont(with_stack(v, v.stack.update(n - 1, Value::Number(negate_bits(x)))))
            } else {
                fail(v, RuntimeError::OperandNumber)
            },
            _ => fail(v, RuntimeError::OperandNumber),
        },
        OpCode::OpNot => if n == 0 {
            fault(v)
        } else {
            cont(with_stack(v, v.stack.drop_last().push(Value::Bool(falsey(top)))))
        },
        OpCode::OpAdd => add_spec(v),
        OpCode::OpSubtract => arithmetic_spec(v, NumericOp::Subtract),
        OpCode::OpMultiply => arithmetic_spec(v, NumericOp::Multiply),
        OpCode::OpDivide => arithmetic_spec(v, NumericOp::Divide),
        OpCode::OpGreater => compare_spec(v, true),
        OpCode::OpLess => compare_spec(v, false),
        OpCode::OpEqual => if n < 2 {
            fail(v, RuntimeError::StackUnderflow)
        } else {
            cont(with_stack(
                v,
                v.stack.drop_last().drop_last().push(Value::Bool(values_equal(v.stack[n - 2], v.stack[n - 1]))),
            ))
        },
        OpCode::OpPrint => if n == 0 {
            fault(v)
        } else {
            (with_stack(v, v.stack.drop_last()), Action::Print(top))
        },
    }
}

/// One step of the machine: decode the next instruction, move past it and run it.
pub open spec fn step_spec(v: VmView) -> (VmView, Action) {
    if !(v.pending is Nothing) {
        fault(v)
    } else {
        match decode_at(v) {
            None => fault(v),
            Some(ins) => exec_spec(set_ip(v, ins.next), current_chunk(v).unwrap(), ins),
        }
    }
}

/// Starting the top-level script.
pub open spec fn interpret_spec(v: VmView, function: usize) -> (VmView, Action) {
    if function >= v.heap.len() || !(v.heap[function as int].data is Function) {
        fault(v)
    } else {
        let f = v.heap[function as int].data->Function_0;
        let clo = ObjectView {
            data: ObjData::Closure(crate::closure::ClosureView {
                function,
                upvalues: Seq::new(f.upvalue_count as nat, |i: int| None::<usize>),
            }),
            is_marked: false,
        };
        call_spec(
            VmView { heap: v.heap.push(clo), stack: v.stack.push(Value::Object(v.heap.len() as usize)), ..v },
            0,
        )
    }
}

/// Takes the driver's reply to the last request.
pub open spec fn resume_spec(v: VmView, reply: Reply) -> (VmView, Action) {
    let n = v.stack.len() as int;
    let v0 = VmView { pending: Pending::Nothing, ..v };
    match (v.pending, reply) {
        (Pending::Arithmetic, Reply::Number(x)) => if n < 2 {
            fault(v0)
        } else {
            cont(with_stack(v0, v.stack.drop_last().drop_last().push(Value::Number(x))))
        },
        (Pending::Len, Reply::Number(x)) => cont(with_stack(v0, v.stack.push(Value::Number(x)))),
        (Pending::MakeArray, Reply::Length(len)) => cont(VmView {
            heap: v.heap.push(ObjectView { data: ObjData::Array(Seq::new(len as nat, |i: int| Value::Nil)), is_marked: false }),
            stack: v.stack.push(Value::Object(v.heap.len() as usize)),
            ..v0
        }),
        (Pending::GetIndex { array, len }, Reply::Index(idx)) => match idx {
            None => fail(v0, RuntimeError::IndexNotInteger),
            Some(i) => if i >= len {
                fail(v0, RuntimeError::IndexOutOfBounds { index: i, len })
            } else if array >= v.heap.len() || !(v.heap[array as int].data is Array) || i >= v.heap[array as int].data->Array_0.len() {
                fault(v0)
            } else {
                cont(with_stack(v0, v.stack.push(v.heap[array as int].data->Array_0[i as int])))
            },
        },
        (Pending::SetIndex { array, value, len }, Reply::Index(idx)) => match idx {
            None => fail(v0, RuntimeError::IndexNotInteger),
            Some(i) => if i >= len {
                fail(v0, RuntimeError::IndexOutOfBounds { index: i, len })
            } else if array >= v.heap.len() || !(v.heap[array as int].data is Array) || i >= v.heap[array as int].data->Array_0.len() {
                fault(v0)
            } else {
                cont(VmView {
                    heap: v.heap.update(
                        array as int,
                        ObjectView {
                            data: ObjData::Array(v.heap[array as int].data->Array_0.update(i as int, value)),
                            ..v.heap[array as int]
                        },
                    ),
                    stack: v.stack.push(value),
                    ..v0
                })
            },
        },
        (Pending::Native { arg_count }, Reply::Native(result)) => match result {
            None => fail(v0, RuntimeError::Native),
            Some(x) => if n == 0 || n - 1 < arg_count {
                fault(v0)
            } else {
                cont(with_stack(v0, v.stack.subrange(0, n - arg_count - 1).push(x)))
            },
        },
        _ => fault(v),
    }
}


/// The state after the native function `f` is made and bound to a global of its name.
pub open spec fn define_native_spec(v: VmView, f: crate::native::NativeView) -> VmView {
    let (v1, name) = intern_spec(v, f.name);
    let r = v1.heap.len() as usize;
    VmView {
        heap: v1.heap.push(ObjectView { data: ObjData::Native(f), is_marked: false }),
        globals: global_insert(v1.globals, name, Value::Object(r)),
        ..v1
    }
}

/// The state after the first `k` natives of `table` are defined, in order.
pub open spec fn with_natives(v: VmView, table: Seq<crate::native::NativeView>, k: nat) -> VmView
    decreases k,
{
    if k == 0 || k > table.len() {
        v
    } else {
        define_native_spec(with_natives(v, table, (k - 1) as nat), table[k - 1])
    }
}

/// A machine with nothing in it.
pub open spec fn empty_vm() -> VmView {
    VmView {
        stack: Seq::empty(),
        heap: Seq::empty(),
        interned: Seq::empty(),
        globals: Seq::empty(),
        frames: Seq::empty(),
        pending: Pending::Nothing,
        trace: Seq::empty(),
    }
}

/// A prefix whose last entry is the text, and no earlier one, finds it there.
pub proof fn lemma_find_interned_prefix(heap: Seq<ObjectView>, s: Seq<usize>, n: int, text: Seq<char>)
    requires
        0 < n <= s.len(),
        find_interned(heap, s.take(n - 1), text) is None,
        s[n - 1] < heap.len(),
        heap[s[n - 1] as int].data == ObjData::String(text),
    ensures
        find_interned(heap, s, text) == Some(n - 1),
    decreases s.len(),
{
    if n == s.len() {
        assert(s.take(n - 1) =~= s.drop_last());
    } else {
        assert(s.drop_last().take(n - 1) =~= s.take(n - 1));
        lemma_find_interned_prefix(heap, s.drop_last(), n, text);
    }
}

/// Interning that finds nothing in a prefix looks one entry further.
pub proof fn lemma_find_interned_step(heap: Seq<ObjectView>, s: Seq<usize>, i: int, text: Seq<char>)
    requires
        0 <= i < s.len(),
        find_interned(heap, s.take(i), text) is None,
        !(s[i] < heap.len() && heap[s[i] as int].data == ObjData::String(text)),
    ensures
        find_interned(heap, s.take(i + 1), text) is None,
{
    assert(s.take(i + 1).drop_last() =~= s.take(i));
}

/// A prefix whose last entry is the name, and no earlier one, finds it there.
pub proof fn lemma_find_global_prefix(s: Seq<(usize, Value)>, n: int, name: usize)
    requires
        0 < n <= s.len(),
        find_global(s.take(n - 1), name) is None,
        s[n - 1].0 == name,
    ensures
        find_global(s, name) == Some(n - 1),
    decreases s.len(),
{
    if n == s.len() {
        assert(s.take(n - 1) =~= s.drop_last());
    } else {
        assert(s.drop_last().take(n - 1) =~= s.take(n - 1));
        lemma_find_global_prefix(s.drop_last(), n, name);
    }
}

/// A global found lies in the table and has the name.
pub proof fn lemma_find_global_bound(s: Seq<(usize, Value)>, name: usize)
    ensures
        find_global(s, name) matches Some(i) ==> 0 <= i < s.len() && s[i].0 == name,
    decreases s.len(),
{
    if s.len() > 0 {
        lemma_find_global_bound(s.drop_last(), name);
    }
}

/// An interned string found lies in the table.
pub proof fn lemma_find_interned_bound(heap: Seq<ObjectView>, s: Seq<usize>, text: Seq<char>)
    ensures
        find_interned(heap, s, text) matches Some(i) ==> 0 <= i < s.len() && s[i] < heap.len()
            && heap[s[i] as int].data == ObjData::String(text),
    decreases s.len(),
{
    if s.len() > 0 {
        lemma_find_interned_bound(heap, s.drop_last(), text);
    }
}

// ── The machine ──────────────────────────────────────────────────────────────

/// A stack-based interpreter of bytecode.
pub struct Vm {
    stack: Vec<Value>,
    heap: Heap,
    interned_strings: Vec<usize>,
    globals: Vec<(usize, Value)>,
    call_stack: Vec<CallFrame>,
    pending: Pending,
    trace: Vec<CallFrame>,
}

impl View for Vm {
    type V = VmView;

    closed spec fn view(&self) -> VmView {
        VmView {
            stack: self.stack@,
            heap: self.heap@,
            interned: self.interned_strings@,
            globals: self.globals@,
            frames: self.call_stack@,
            pending: self.pending,
            trace: self.trace@,
        }
    }
}

fn operand_size_of(op: OpCode) -> (n: usize)
    ensures
        n == operand_size(op),
{
    match op {
        OpCode::OpConstant | OpCode::OpDefineGlobal | OpCode::OpGetGlobal | OpCode::OpSetGlobal
        | OpCode::OpClosure | OpCode::OpGetLocal | OpCode::OpSetLocal | OpCode::OpPopN
        | OpCode::OpYield | OpCode::OpCall | OpCode::OpArray => 1,
        OpCode::OpJumpIfFalse | OpCode::OpJump | OpCode::OpLoop => 2,
        _ => 0,
    }
}

impl Vm {
    /// A machine with the native functions defined as globals.
    pub fn new() -> (vm: Vm)
        ensures
            vm@ == with_natives(empty_vm(), native_table(), 4),
            strings_interned(vm@.heap, vm@.interned),
    {
        let mut vm = Vm {
            stack: Vec::new(),
            heap: Heap::new(),
            interned_strings: Vec::new(),
            globals: Vec::new(),
            call_stack: Vec::new(),
            pending: Pending::Nothing,
            trace: Vec::new(),
        };
        let mut natives = get_native_functions();
        proof {
            assert(vm@ =~= empty_vm());
        }
        let ghost table = native_table();
        let mut k: usize = 0;
        while k < 4
            invariant
                k <= 4,
                table == native_table(),
                natives@.len() == 4 - k,
                forall|j: int| 0 <= j < natives@.len() ==> #[trigger] natives@[j]@ == table[k + j],
                vm@ == with_natives(empty_vm(), table, k as nat),
            decreases 4 - k,
        {
            let f = natives.remove(0);
            let name = f.name.clone();
            vm.define_native(name.as_str(), f);
            k = k + 1;
        }
        proof {
            law_new_machine_interned(4);
        }
        vm
    }

    // ── Memory ───────────────────────────────────────────────────────────────

    /// The heap, for reading objects.
    pub fn heap(&self) -> (h: &Heap)
        ensures
            h@ == self@.heap,
    {
        &self.heap
    }

    /// Adds an object to the heap and gives its index.
    pub fn allocate_object(&mut self, obj_type: ObjectType) -> (r: usize)
        ensures
            r == old(self)@.heap.len(),
            final(self)@ == (VmView {
                heap: old(self)@.heap.push(ObjectView { data: obj_type@, is_marked: false }),
                ..old(self)@
            }),
            !(obj_type@ is String) ==> keeps_interning(old(self)@, final(self)@),
            keeps_strings(old(self)@, final(self)@),
    {
        self.heap.allocate(obj_type)
    }

    /// The string object for `text`: the one already made for the same text, or a new one.
    pub fn intern(&mut self, text: String) -> (r: usize)
        ensures
            (final(self)@, r) == intern_spec(old(self)@, text@),
            keeps_interning(old(self)@, final(self)@),
            keeps_strings(old(self)@, final(self)@),
    {
        proof {
            if strings_interned(self@.heap, self@.interned) && self@.heap.len() < usize::MAX { lemma_intern_keeps(self@, text@); }
        }
        let mut i: usize = 0;
        while i < self.interned_strings.len()
            invariant
                self@ == old(self)@,
                i <= self.interned_strings@.len(),
                find_interned(self@.heap, self@.interned.take(i as int), text@) is None,
            decreases self.interned_strings@.len() - i,
        {
            let r = self.interned_strings[i];
            if r < self.heap.len() {
                match &self.heap.get(r).obj_type {
                    ObjectType::String(s) => {
                        if *s == text {
                            proof {
                                lemma_find_interned_prefix(self@.heap, self@.interned, i + 1, text@);
                            }
                            return r;
                        }
                    },
                    _ => {},
                }
            }
            proof {
                lemma_find_interned_step(self@.heap, self@.interned, i as int, text@);
            }
            i = i + 1;
        }
        proof {
            assert(self@.interned.take(i as int) =~= self@.interned);
        }
        let r = self.heap.allocate(ObjectType::String(text));
        self.interned_strings.push(r);
        r
    }

    /// The string object for `string`.
    pub fn allocate_string(&mut self, string: &str) -> (r: usize)
        ensures
            (final(self)@, r) == intern_spec(old(self)@, string@),
            keeps_interning(old(self)@, final(self)@),
            keeps_strings(old(self)@, final(self)@),
    {
        self.intern(string.to_owned())
    }

    /// Adds a function object to the heap and gives its index.
    pub fn allocate_function(&mut self, func: FunctionObject) -> (r: usize)
        ensures
            r == old(self)@.heap.len(),
            final(self)@ == (VmView {
                heap: old(self)@.heap.push(ObjectView { data: ObjData::Function(func@), is_marked: false }),
                ..old(self)@
            }),
            keeps_interning(old(self)@, final(self)@),
            keeps_strings(old(self)@, final(self)@),
    {
        self.allocate_object(ObjectType::Function(func))
    }

    /// Makes a native function object and binds it to the global `name`.
    pub fn define_native(&mut self, name: &str, f: NativeFunction)
        requires
            f@.name == name@,
        ensures
            final(self)@ == define_native_spec(old(self)@, f@),
            keeps_interning(old(self)@, final(self)@),
            keeps_strings(old(self)@, final(self)@),
    {
        proof {
            if strings_interned(self@.heap, self@.interned) && self@.heap.len() < usize::MAX { lemma_define_native_keeps(self@, f@); }
        }
        let name_ref = self.allocate_string(name);
        let obj = self.allocate_object(ObjectType::Native(f));
        self.set_global(name_ref, Value::Object(obj));
    }

    // ── Globals ──────────────────────────────────────────────────────────────

    fn find_global(&self, name: usize) -> (r: Option<usize>)
        ensures
            r is Some <==> find_global(self@.globals, name) is Some,
            r matches Some(i) ==> find_global(self@.globals, name) == Some(i as int) && i < self@.globals.len(),
    {
        let mut i: usize = 0;
        while i < self.globals.len()
            invariant
                i <= self.globals@.len(),
                find_global(self.globals@.take(i as int), name) is None,
            decreases self.globals@.len() - i,
        {
            if self.globals[i].0 == name {
                proof {
                    lemma_find_global_prefix(self.globals@, i + 1, name);
                }
                return Some(i);
            }
            proof {
                assert(self.globals@.take(i + 1).drop_last() =~= self.globals@.take(i as int));
            }
            i = i + 1;
        }
        proof {
            assert(self.globals@.take(i as int) =~= self.globals@);
        }
        None
    }

    /// The value of the global named by the string object `name`, if defined.
    pub fn get_global(&self, name: usize) -> (r: Option<Value>)
        ensures
            r == global_value(self@.globals, name),
    {
        proof {
            lemma_find_global_bound(self@.globals, name);
        }
        match self.find_global(name) {
            Some(i) => Some(self.globals[i].1),
            None => None,
        }
    }

    /// Defines or sets the global named by the string object `name`.
    pub fn set_global(&mut self, name: usize, value: Value)
        ensures
            final(self)@ == (VmView { globals: global_insert(old(self)@.globals, name, value), ..old(self)@ }),
            keeps_interning(old(self)@, final(self)@),
            keeps_strings(old(self)@, final(self)@),
    {
        proof {
            lemma_find_global_bound(self@.globals, name);
        }
        match self.find_global(name) {
            Some(i) => {
                self.globals.set(i, (name, value));
            },
            None => {
                self.globals.push((name, value));
            },
        }
    }

    // ── Errors ───────────────────────────────────────────────────────────────

    /// Stops the program with `error`: the calls in progress, innermost first, become
    /// the trace, and the stack and the calls are cleared.
    pub fn runtime_error(&mut self, error: RuntimeError) -> (r: Action)
        ensures
            (final(self)@, r) == fail(old(self)@, error),
            keeps_interning(old(self)@, final(self)@),
            keeps_strings(old(self)@, final(self)@),
    {
        let mut trace: Vec<CallFrame> = Vec::new();
        let n = self.call_stack.len();
        let mut i: usize = 0;
        while i < n
            invariant
                n == self.call_stack@.len(),
                i <= n,
                trace@ == self.call_stack@.reverse().take(i as int),
            decreases n - i,
        {
            trace.push(self.call_stack[n - 1 - i]);
            i = i + 1;
            proof {
                assert(trace@ =~= self.call_stack@.reverse().take(i as int));
            }
        }
        proof {
            assert(trace@ =~= self.call_stack@.reverse());
        }
        self.trace = trace;
        self.stack = Vec::new();
        self.call_stack = Vec::new();
        self.pending = Pending::Nothing;
        proof {
            assert(self@ =~= fail(old(self)@, error).0);
        }
        Action::Error(error)
    }

    /// The calls that were in progress when the program last stopped with an error,
    /// innermost first.
    pub fn trace(&self) -> (t: &Vec<CallFrame>)
        ensures
            t@ == self@.trace,
    {
        &self.trace
    }

    /// The values on the stack.
    pub fn stack(&self) -> (s: &Vec<Value>)
        ensures
            s@ == self@.stack,
    {
        &self.stack
    }

    // ── Decoding ─────────────────────────────────────────────────────────────

    /// The function object that the closure object at `closure` runs.
    fn function_of(&self, closure: usize) -> (r: Option<&FunctionObject>)
        ensures
            r is Some <==> closure_function(self@.heap, closure) is Some,
            r matches Some(f) ==> closure_function(self@.heap, closure) == Some(f@),
    {
        if closure >= self.heap.len() {
            return None;
        }
        match &self.heap.get(closure).obj_type {
            ObjectType::Closure(c) => {
                let f = c.function;
                if f >= self.heap.len() {
                    return None;
                }
                match &self.heap.get(f).obj_type {
                    ObjectType::Function(func) => Some(func),
                    _ => None,
                }
            },
            _ => None,
        }
    }

    fn current_chunk(&self) -> (r: Option<&Chunk>)
        ensures
            r is Some <==> current_chunk(self@) is Some,
            r matches Some(c) ==> current_chunk(self@) == Some(c@),
    {
        let n = self.call_stack.len();
        if n == 0 {
            return None;
        }
        match self.function_of(self.call_stack[n - 1].closure) {
            Some(f) => Some(&f.chunk),
            None => None,
        }
    }

    fn decode(&self) -> (r: Option<Instr>)
        ensures
            r == decode_at(self@),
    {
        let chunk = match self.current_chunk() {
            Some(c) => c,
            None => return None,
        };
        let ip = self.call_stack[self.call_stack.len() - 1].ip;
        let count = chunk.count();
        if ip >= count {
            return None;
        }
        let op = match OpCode::try_from(chunk.read_byte(ip)) {
            Ok(op) => op,
            Err(_) => return None,
        };
        let n = operand_size_of(op);
        if n > count - ip - 1 {
            return None;
        }
        let operand = if n >= 1 {
            chunk.read_byte(ip + 1)
        } else {
            0
        };
        let short: u16 = if n == 2 {
            (chunk.read_byte(ip + 1) as u16) * 256 + (chunk.read_byte(ip + 2) as u16)
        } else {
            0
        };
        Some(Instr { op, operand, short, next: ip + 1 + n })
    }

    fn set_ip(&mut self, ip: usize)
        requires
            old(self)@.frames.len() > 0,
        ensures
            final(self)@ == set_ip(old(self)@, ip),
    {
        let n = self.call_stack.len();
        let f = self.call_stack[n - 1];
        self.call_stack.set(n - 1, CallFrame { ip, ..f });
    }

    fn constant(&self, index: usize) -> (r: Option<Value>)
        requires
            current_chunk(self@) is Some,
        ensures
            r == (if index < current_chunk(self@).unwrap().constants.len() {
                Some(current_chunk(self@).unwrap().constants[index as int])
            } else {
                None
            }),
    {
        let chunk = match self.current_chunk() {
            Some(c) => c,
            None => return None,
        };
        if index < chunk.constant_count() {
            Some(chunk.read_constant(index))
        } else {
            None
        }
    }

    fn name_constant(&self, index: usize) -> (r: Option<usize>)
        requires
            current_chunk(self@) is Some,
        ensures
            r == name_constant(current_chunk(self@).unwrap(), index as int),
    {
        match self.constant(index) {
            Some(Value::Object(r)) => Some(r),
            _ => None,
        }
    }

    fn top(&self) -> (r: Value)
        requires
            self@.stack.len() > 0,
        ensures
            r == self@.stack.last(),
    {
        self.stack[self.stack.len() - 1]
    }

    fn pop_value(&mut self) -> (r: Value)
        requires
            old(self)@.stack.len() > 0,
        ensures
            r == old(self)@.stack.last(),
            final(self)@ == with_stack(old(self)@, old(self)@.stack.drop_last()),
    {
        match self.stack.pop() {
            Some(v) => v,
            None => Value::Nil,
        }
    }

    fn push_value(&mut self, v: Value)
        ensures
            final(self)@ == with_stack(old(self)@, old(self)@.stack.push(v)),
    {
        self.stack.push(v);
    }

    // ── Running ──────────────────────────────────────────────────────────────

    /// Prepares to run the function object at `function` as the top-level script:
    /// makes a closure of it, puts it on the stack and calls it with no arguments.
    pub fn interpret(&mut self, function: usize) -> (r: Action)
        ensures
            (final(self)@, r) == interpret_spec(old(self)@, function),
            keeps_interning(old(self)@, final(self)@),
            keeps_strings(old(self)@, final(self)@),
    {
        proof {
            law_strings_persist(self@, Reply::Length(0), function);
        }
        proof {
            if strings_interned(self@.heap, self@.interned) && self@.heap.len() < usize::MAX { law_strings_stay_interned(self@, Reply::Length(0), function); }
        }
        if function >= self.heap.len() {
            return Action::Fault;
        }
        let upvalue_count = match &self.heap.get(function).obj_type {
            ObjectType::Function(f) => f.upvalue_count,
            _ => return Action::Fault,
        };
        let closure = ClosureObject::new(function, upvalue_count);
        let r = self.allocate_object(ObjectType::Closure(closure));
        self.push_value(Value::Object(r));
        self.call_value(0)
    }

    fn call_value(&mut self, arg_count: usize) -> (r: Action)
        ensures
            (final(self)@, r) == call_spec(old(self)@, arg_count as int),
    {
        let n = self.stack.len();
        if n == 0 || n - 1 < arg_count {
            return Action::Fault;
        }
        let base = n - arg_count - 1;
        let callee = self.stack[base];
        match callee {
            Value::Object(r) => {
                if r >= self.heap.len() {
                    return Action::Fault;
                }
                let kind = match &self.heap.get(r).obj_type {
                    ObjectType::Closure(_) => 0u8,
                    ObjectType::Native(_) => 1u8,
                    _ => 2u8,
                };
                if kind == 0 {
                    let arity = match self.function_of(r) {
                        Some(f) => f.arity,
                        None => return Action::Fault,
                    };
                    if arity != arg_count {
                        return self.runtime_error(RuntimeError::Arity { arity, got: arg_count, callee: r });
                    }
                    self.call_stack.push(CallFrame { closure: r, ip: 0, stack_base: base });
                    Action::Continue
                } else if kind == 1 {
                    let (arity, native_kind) = match &self.heap.get(r).obj_type {
                        ObjectType::Native(f) => (f.arity, f.kind),
                        _ => return Action::Fault,
                    };
                    if arity != arg_count {
                        return self.runtime_error(RuntimeError::Arity { arity, got: arg_count, callee: r });
                    }
                    self.pending = Pending::Native { arg_count };
                    Action::CallNative(native_kind, arg_count)
                } else {
                    self.runtime_error(RuntimeError::InvalidFunctionType)
                }
            },
            _ => Action::Continue,
        }
    }

    /// Runs the next instruction.
    pub fn step(&mut self) -> (r: Action)
        ensures
            (final(self)@, r) == step_spec(old(self)@),
            keeps_interning(old(self)@, final(self)@),
            keeps_strings(old(self)@, final(self)@),
    {
        proof {
            law_strings_persist(self@, Reply::Length(0), 0);
        }
        proof {
            if strings_interned(self@.heap, self@.interned) && self@.heap.len() < usize::MAX { law_strings_stay_interned(self@, Reply::Length(0), 0); }
        }
        match self.pending {
            Pending::Nothing => {},
            _ => return Action::Fault,
        }
        let ins = match self.decode() {
            Some(i) => i,
            None => return Action::Fault,
        };
        self.set_ip(ins.next);
        self.execute(ins)
    }

    fn execute(&mut self, ins: Instr) -> (r: Action)
        requires
            old(self)@.frames.len() > 0,
            current_chunk(old(self)@) is Some,
        ensures
            (final(self)@, r) == exec_spec(old(self)@, current_chunk(old(self)@).unwrap(), ins),
    {
        let n = self.stack.len();
        match ins.op {
            OpCode::OpCall => self.call_value(ins.operand as usize),
            OpCode::OpClosure => self.op_closure(ins.operand as usize),
            OpCode::OpGetUpvalue | OpCode::OpSetUpvalue => Action::Continue,
            OpCode::OpReturn => self.op_return(),
            OpCode::OpYield => {
                if n == 0 || n - 1 < ins.operand as usize {
                    return Action::Fault;
                }
                let result = self.pop_value();
                self.stack.truncate(n - 1 - ins.operand as usize);
                self.push_value(result);
                Action::Continue
            },
            OpCode::OpJumpIfFalse => {
                if n == 0 || ins.next > usize::MAX - ins.short as usize {
                    return Action::Fault;
                }
                if self.top().is_falsey() {
                    self.set_ip(ins.next + ins.short as usize);
                }
                Action::Continue
            },
            OpCode::OpJump => {
                if ins.next > usize::MAX - ins.short as usize {
                    return Action::Fault;
                }
                self.set_ip(ins.next + ins.short as usize);
                Action::Continue
            },
            OpCode::OpLoop => {
                if ins.next < ins.short as usize {
                    return Action::Fault;
                }
                self.set_ip(ins.next - ins.short as usize);
                Action::Continue
            },
            OpCode::OpArray => {
                let count = ins.operand as usize;
                if n < count {
                    return Action::Fault;
                }
                let values = self.stack.split_off(n - count);
                let r = self.heap.allocate(ObjectType::Array(values));
                self.push_value(Value::Object(r));
                Action::Continue
            },
            OpCode::OpMakeArray => {
                if n == 0 {
                    return Action::Fault;
                }
                match self.pop_value() {
                    Value::Number(x) => {
                        self.pending = Pending::MakeArray;
                        Action::ArrayLength(x)
                    },
                    _ => self.runtime_error(RuntimeError::LengthNotNumber),
                }
            },
            OpCode::OpLen => {
                match self.pop_array() {
                    None => Action::Fault,
                    Some(Err(e)) => self.runtime_error(e),
                    Some(Ok((_, len))) => {
                        self.pending = Pending::Len;
                        Action::LengthValue(len)
                    },
                }
            },
            OpCode::OpGetIndex => self.op_index(None),
            OpCode::OpSetIndex => {
                if n == 0 {
                    return Action::Fault;
                }
                let value = self.pop_value();
                self.op_index(Some(value))
            },
            OpCode::OpConstant => {
                match self.constant(ins.operand as usize) {
                    Some(c) => {
                        self.push_value(c);
                        Action::Continue
                    },
                    None => Action::Fault,
                }
            },
            OpCode::OpNil => {
                self.push_value(Value::Nil);
                Action::Continue
            },
            OpCode::OpTrue => {
                self.push_value(Value::Bool(true));
                Action::Continue
            },
            OpCode::OpFalse => {
                self.push_value(Value::Bool(false));
                Action::Continue
            },
            OpCode::OpPop => {
                if n > 0 {
                    self.pop_value();
                }
                Action::Continue
            },
            OpCode::OpPopN => {
                if n < ins.operand as usize {
                    return Action::Fault;
                }
                self.stack.truncate(n - ins.operand as usize);
                Action::Continue
            },
            OpCode::OpDup => {
                if n == 0 {
                    return Action::Fault;
                }
                let v = self.top();
                self.push_value(v);
                Action::Continue
            },
            OpCode::OpDefineGlobal => {
                let name = match self.name_constant(ins.operand as usize) {
                    Some(name) => name,
                    None => return Action::Fault,
                };
                if n == 0 {
                    return Action::Fault;
                }
                let v = self.pop_value();
                self.set_global(name, v);
                Action::Continue
            },
            OpCode::OpGetGlobal => {
                let name = match self.name_constant(ins.operand as usize) {
                    Some(name) => name,
                    None => return Action::Fault,
                };
                match self.get_global(name) {
                    Some(v) => {
                        self.push_value(v);
                        Action::Continue
                    },
                    None => self.runtime_error(RuntimeError::UndefinedVariable(name)),
                }
            },
            OpCode::OpSetGlobal => {
                let name = match self.name_constant(ins.operand as usize) {
                    Some(name) => name,
                    None => return Action::Fault,
                };
                match self.find_global(name) {
                    Some(_) => {
                        if n == 0 {
                            return Action::Fault;
                        }
                        let v = self.top();
                        self.set_global(name, v);
                        Action::Continue
                    },
                    None => self.runtime_error(RuntimeError::UndefinedVariable(name)),
                }
            },
            OpCode::OpGetLocal => {
                let base = self.call_stack[self.call_stack.len() - 1].stack_base;
                if base >= n || ins.operand as usize >= n - base {
                    return Action::Fault;
                }
                let v = self.stack[base + ins.operand as usize];
                self.push_value(v);
                Action::Continue
            },
            OpCode::OpSetLocal => {
                let base = self.call_stack[self.call_stack.len() - 1].stack_base;
                if n == 0 || base >= n || ins.operand as usize >= n - base {
                    return Action::Fault;
                }
                let v = self.top();
                self.stack.set(base + ins.operand as usize, v);
                Action::Continue
            },
            OpCode::OpNegate => {
                if n > 0 {
                    match self.top() {
                        Value::Number(x) => {
                            self.stack.set(n - 1, Value::Number(number_negate(x)));
                            return Action::Continue;
                        },
                        _ => {},
                    }
                }
                self.runtime_error(RuntimeError::OperandNumber)
            },
            OpCode::OpNot => {
                if n == 0 {
                    return Action::Fault;
                }
                let v = self.pop_value();
                self.push_value(Value::Bool(v.is_falsey()));
                Action::Continue
            },
            OpCode::OpAdd => self.add(),
            OpCode::OpSubtract => self.binary_op(NumericOp::Subtract),
            OpCode::OpMultiply => self.binary_op(NumericOp::Multiply),
            OpCode::OpDivide => self.binary_op(NumericOp::Divide),
            OpCode::OpGreater => self.compare(true),
            OpCode::OpLess => self.compare(false),
            OpCode::OpEqual => {
                if n < 2 {
                    return self.runtime_error(RuntimeError::StackUnderflow);
                }
                let a = self.stack[n - 2];
                let b = self.stack[n - 1];
                let eq = a == b;
                self.pop_value();
                self.pop_value();
                self.push_value(Value::Bool(eq));
                Action::Continue
            },
            OpCode::OpPrint => {
                if n == 0 {
                    return Action::Fault;
                }
                let v = self.pop_value();
                Action::Print(v)
            },
        }
    }

    fn op_closure(&mut self, index: usize) -> (r: Action)
        requires
            current_chunk(old(self)@) is Some,
        ensures
            (final(self)@, r) == closure_spec(old(self)@, current_chunk(old(self)@).unwrap(), index as int),
    {
        let c = match self.constant(index) {
            Some(c) => c,
            None => return Action::Fault,
        };
        match c {
            Value::Object(r) => {
                if r >= self.heap.len() {
                    return Action::Fault;
                }
                let upvalue_count = match &self.heap.get(r).obj_type {
                    ObjectType::Function(f) => f.upvalue_count,
                    _ => return self.runtime_error(RuntimeError::NotAFunction),
                };
                let closure = ClosureObject::new(r, upvalue_count);
                let obj = self.heap.allocate(ObjectType::Closure(closure));
                self.push_value(Value::Object(obj));
                Action::Continue
            },
            _ => self.runtime_error(RuntimeError::NotAnObject),
        }
    }

    fn op_return(&mut self) -> (r: Action)
        ensures
            (final(self)@, r) == return_spec(old(self)@),
    {
        if self.stack.len() == 0 || self.call_stack.len() == 0 {
            return Action::Fault;
        }
        let result = self.pop_value();
        let frame = match self.call_stack.pop() {
            Some(f) => f,
            None => return Action::Fault,
        };
        if self.call_stack.len() == 0 {
            return Action::Finished;
        }
        self.stack.truncate(frame.stack_base);
        self.push_value(result);
        Action::Continue
    }

    /// Pops an array: its heap index and length, or why it is not one. Nothing when
    /// the stack is empty or the value names no object.
    fn pop_array(&mut self) -> (r: Option<Result<(usize, usize), RuntimeError>>)
        ensures
            r is None <==> pop_array_spec(old(self)@) is None,
            r is None ==> final(self)@ == old(self)@,
            r matches Some(Err(e)) ==> pop_array_spec(old(self)@) == Some(
                Err::<(VmView, usize, usize), RuntimeError>(e),
            ) && final(self)@ == with_stack(old(self)@, old(self)@.stack.drop_last()),
            r matches Some(Ok((a, len))) ==> pop_array_spec(old(self)@) == Some(
                Ok::<(VmView, usize, usize), RuntimeError>((final(self)@, a, len)),
            ),
    {
        let n = self.stack.len();
        if n == 0 {
            return None;
        }
        match self.top() {
            Value::Object(r) => {
                if r >= self.heap.len() {
                    return None;
                }
                let len = match &self.heap.get(r).obj_type {
                    ObjectType::Array(values) => Some(values.len()),
                    _ => None,
                };
                self.pop_value();
                match len {
                    Some(len) => Some(Ok((r, len))),
                    None => Some(Err(RuntimeError::NotAnArray)),
                }
            },
            _ => {
                self.pop_value();
                Some(Err(RuntimeError::NotAnArray))
            },
        }
    }

    fn op_index(&mut self, value: Option<Value>) -> (r: Action)
        ensures
            (final(self)@, r) == index_spec(old(self)@, value),
    {
        if self.stack.len() == 0 {
            return Action::Fault;
        }
        match self.pop_value() {
            Value::Number(x) => {
                match self.pop_array() {
                    None => Action::Fault,
                    Some(Err(e)) => self.runtime_error(e),
                    Some(Ok((array, len))) => {
                        self.pending = match value {
                            Some(v) => Pending::SetIndex { array, value: v, len },
                            None => Pending::GetIndex { array, len },
                        };
                        Action::Index(x)
                    },
                }
            },
            _ => self.runtime_error(RuntimeError::IndexNotNumber),
        }
    }

    fn binary_op(&mut self, op: NumericOp) -> (r: Action)
        ensures
            (final(self)@, r) == arithmetic_spec(old(self)@, op),
    {
        let n = self.stack.len();
        if n < 2 {
            return self.runtime_error(RuntimeError::StackUnderflow);
        }
        match (self.stack[n - 2], self.stack[n - 1]) {
            (Value::Number(a), Value::Number(b)) => {
                self.pending = Pending::Arithmetic;
                Action::Arithmetic(op, a, b)
            },
            _ => self.runtime_error(RuntimeError::OperandsNumbers),
        }
    }

    fn compare(&mut self, greater: bool) -> (r: Action)
        ensures
            (final(self)@, r) == compare_spec(old(self)@, greater),
    {
        let n = self.stack.len();
        if n < 2 {
            return self.runtime_error(RuntimeError::StackUnderflow);
        }
        match (self.stack[n - 2], self.stack[n - 1]) {
            (Value::Number(a), Value::Number(b)) => {
                let result = if greater {
                    number_less(b, a)
                } else {
                    number_less(a, b)
                };
                self.pop_value();
                self.pop_value();
                self.push_value(Value::Bool(result));
                Action::Continue
            },
            _ => self.runtime_error(RuntimeError::OperandsNumbers),
        }
    }

    fn add(&mut self) -> (r: Action)
        ensures
            (final(self)@, r) == add_spec(old(self)@),
    {
        let n = self.stack.len();
        if n < 2 {
            return self.runtime_error(RuntimeError::StackUnderflow);
        }
        match (self.stack[n - 2], self.stack[n - 1]) {
            (Value::Number(a), Value::Number(b)) => {
                self.pending = Pending::Arithmetic;
                Action::Arithmetic(NumericOp::Add, a, b)
            },
            (Value::Object(x), Value::Object(y)) => {
                if x >= self.heap.len() || y >= self.heap.len() {
                    return Action::Fault;
                }
                let joined = match (&self.heap.get(x).obj_type, &self.heap.get(y).obj_type) {
                    (ObjectType::String(sa), ObjectType::String(sb)) => {
                        let mut s = sa.clone();
                        s.append(sb.as_str());
                        Some(s)
                    },
                    _ => None,
                };
                match joined {
                    Some(s) => {
                        let r = self.intern(s);
                        self.pop_value();
                        self.pop_value();
                        self.push_value(Value::Object(r));
                        Action::Continue
                    },
                    None => self.runtime_error(RuntimeError::OperandsNumbersOrStrings),
                }
            },
            _ => self.runtime_error(RuntimeError::OperandsNumbersOrStrings),
        }
    }

    /// Takes the driver's reply to the last request.
    pub fn resume(&mut self, reply: Reply) -> (r: Action)
        ensures
            (final(self)@, r) == resume_spec(old(self)@, reply),
            keeps_interning(old(self)@, final(self)@),
            keeps_strings(old(self)@, final(self)@),
    {
        proof {
            law_strings_persist(self@, reply, 0);
        }
        proof {
            if strings_interned(self@.heap, self@.interned) && self@.heap.len() < usize::MAX { law_strings_stay_interned(self@, reply, 0); }
        }
        let n = self.stack.len();
        let pending = self.pending;
        match (pending, reply) {
            (Pending::Arithmetic, Reply::Number(x)) => {
                self.pending = Pending::Nothing;
                if n < 2 {
                    return Action::Fault;
                }
                self.pop_value();
                self.pop_value();
                self.push_value(Value::Number(x));
                Action::Continue
            },
            (Pending::Len, Reply::Number(x)) => {
                self.pending = Pending::Nothing;
                self.push_value(Value::Number(x));
                Action::Continue
            },
            (Pending::MakeArray, Reply::Length(len)) => {
                self.pending = Pending::Nothing;
                let mut values: Vec<Value> = Vec::new();
                let mut i: usize = 0;
                while i < len
                    invariant
                        i <= len,
                        values@ == Seq::new(i as nat, |j: int| Value::Nil),
                    decreases len - i,
                {
                    values.push(Value::Nil);
                    i = i + 1;
                    proof {
                        assert(values@ =~= Seq::new(i as nat, |j: int| Value::Nil));
                    }
                }
                let r = self.heap.allocate(ObjectType::Array(values));
                self.push_value(Value::Object(r));
                Action::Continue
            },
            (Pending::GetIndex { array, len }, Reply::Index(idx)) => {
                self.pending = Pending::Nothing;
                match idx {
                    None => self.runtime_error(RuntimeError::IndexNotInteger),
                    Some(i) => {
                        if i >= len {
                            return self.runtime_error(RuntimeError::IndexOutOfBounds { index: i, len });
                        }
                        if array >= self.heap.len() {
                            return Action::Fault;
                        }
                        let element = match &self.heap.get(array).obj_type {
                            ObjectType::Array(values) => {
                                if i < values.len() {
                                    Some(values[i])
                                } else {
                                    None
                                }
                            },
                            _ => None,
                        };
                        match element {
                            Some(v) => {
                                self.push_value(v);
                                Action::Continue
                            },
                            None => Action::Fault,
                        }
                    },
                }
            },
            (Pending::SetIndex { array, value, len }, Reply::Index(idx)) => {
                self.pending = Pending::Nothing;
                match idx {
                    None => self.runtime_error(RuntimeError::IndexNotInteger),
                    Some(i) => {
                        if i >= len {
                            return self.runtime_error(RuntimeError::IndexOutOfBounds { index: i, len });
                        }
                        if array >= self.heap.len() {
                            return Action::Fault;
                        }
                        let fits = match &self.heap.get(array).obj_type {
                            ObjectType::Array(values) => i < values.len(),
                            _ => false,
                        };
                        if !fits {
                            return Action::Fault;
                        }
                        self.heap.set_array_element(array, i, value);
                        self.push_value(value);
                        Action::Continue
                    },
                }
            },
            (Pending::Native { arg_count }, Reply::Native(result)) => {
                self.pending = Pending::Nothing;
                match result {
                    None => self.runtime_error(RuntimeError::Native),
                    Some(x) => {
                        if n == 0 || n - 1 < arg_count {
                            return Action::Fault;
                        }
                        self.stack.truncate(n - arg_count - 1);
                        self.push_value(x);
                        Action::Continue
                    },
                }
            },
            _ => Action::Fault,
        }
    }
}

} // verus!
