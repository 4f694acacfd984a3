use vstd::prelude::*;
use crate::chunk::{Chunk, ChunkView};

verus! {

/// A compiled function: its parameter count, bytecode, name and number of captured
/// variables.
pub struct FunctionObject {
    pub arity: usize,
    pub chunk: Chunk,
    pub name: String,
    pub upvalue_count: usize,
}

pub struct FunctionView {
    pub arity: usize,
    pub chunk: ChunkView,
    pub name: Seq<char>,
    pub upvalue_count: usize,
}

impl View for FunctionObject {
    type V = FunctionView;

    open spec fn view(&self) -> FunctionView {
        FunctionView {
            arity: self.arity,
            chunk: self.chunk@,
            name: self.name@,
            upvalue_count: self.upvalue_count,
        }
    }
}

impl FunctionObject {
    /// A function with no captured variables.
    pub fn new(chunk: Chunk, arity: usize, name: &str) -> (f: FunctionObject)
        ensures
            f@ == (FunctionView { arity, chunk: chunk@, name: name@, upvalue_count: 0 }),
            f.chunk.wf() == chunk.wf(),
    {
        FunctionObject { arity, chunk, name: name.to_owned(), upvalue_count: 0 }
    }
}

/// Whether a function body is the top-level script or a declared function.
#[derive(Debug, Clone, Copy, PartialEq, Eq, Structural)]
pub enum FunctionType {
    TypeFunction,
    TypeScript,
}

} // verus!
