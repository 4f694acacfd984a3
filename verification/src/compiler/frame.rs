use vstd::prelude::*;
use crate::closure::CompilerUpvalue;
use crate::function::{FunctionObject, FunctionType};
use crate::scanner::token_in;
use crate::token::{Token, TokenType};

verus! {

/// A local variable of the function being compiled: its name token, the scope depth
/// it was declared at, whether its initializer is done, and whether an inner function
/// captures it.
#[derive(Debug, Clone, Copy, PartialEq, Eq, Structural)]
pub struct Local {
    pub token: Token,
    pub depth: usize,
    pub is_initialized: bool,
    pub is_captured: bool,
}

/// The state of compiling one function: its locals (slot 0 holds the function itself),
/// the scope depth, for each enclosing loop its scope depth, where `continue` jumps
/// and the `break` jumps still to patch, the function being filled, its kind, and the
/// variables it captures.
pub struct FunctionCompiler {
    pub locals: Vec<Local>,
    pub scope_depth: usize,
    pub jumps: Vec<(usize, usize, Vec<usize>)>,
    pub function: FunctionObject,
    pub function_type: FunctionType,
    pub upvalues: Vec<CompilerUpvalue>,
}

/// The local that reserves slot 0: an empty name, depth 0, initialized.
pub open spec fn slot_zero() -> Local {
    Local {
        token: Token { token_type: TokenType::Identifier, start: 0, length: 0, line: 0 },
        depth: 0,
        is_initialized: true,
        is_captured: false,
    }
}

impl FunctionCompiler {
    /// The state for compiling `function` from its start.
    pub fn new(function: FunctionObject, function_type: FunctionType) -> (f: FunctionCompiler)
        ensures
            f.locals@ == seq![slot_zero()],
            f.scope_depth == 0,
            f.jumps@.len() == 0,
            f.function == function,
            f.function_type == function_type,
            f.upvalues@.len() == 0,
    {
        let locals = vec![
            Local {
                token: Token { token_type: TokenType::Identifier, length: 0, start: 0, line: 0 },
                depth: 0,
                is_initialized: true,
                is_captured: false,
            },
        ];
        FunctionCompiler {
            locals,
            scope_depth: 0,
            jumps: Vec::new(),
            function,
            function_type,
            upvalues: Vec::new(),
        }
    }

    /// Declares a local named by `token` in the current scope, not yet initialized.
    pub fn add_local(&mut self, token: Token)
        ensures
            final(self).locals@ == old(self).locals@.push(
                Local { token, depth: old(self).scope_depth, is_initialized: false, is_captured: false },
            ),
            final(self).scope_depth == old(self).scope_depth,
            final(self).jumps == old(self).jumps,
            final(self).function == old(self).function,
            final(self).function_type == old(self).function_type,
            final(self).upvalues == old(self).upvalues,
    {
        self.locals.push(Local { token, depth: self.scope_depth, is_initialized: false, is_captured: false });
    }
}

/// A frame's consistency for a source with bytes `bytes`: one line per byte of code,
/// slot 0 reserved, local names that are pieces of the source, locals ordered by the
/// depth of their scope and none deeper than the current scope, and loop targets and
/// pending jumps inside the code.
pub open spec fn frame_wf(f: FunctionCompiler, bytes: Seq<u8>) -> bool {
    let code_len = f.function.chunk@.code.len();
    &&& f.function.chunk.wf()
    &&& f.locals@.len() >= 1
    &&& f.locals@[0].depth == 0
    &&& forall|j: int| 0 <= j < f.locals@.len() ==> token_in(bytes, #[trigger] f.locals@[j].token)
    &&& forall|j: int| 0 <= j < f.locals@.len() ==> (#[trigger] f.locals@[j]).depth <= f.scope_depth
    &&& forall|j: int, k: int|
        0 <= j <= k < f.locals@.len() ==> (#[trigger] f.locals@[j]).depth <= (#[trigger] f.locals@[k]).depth
    &&& forall|j: int| 0 <= j < f.jumps@.len() ==> (#[trigger] f.jumps@[j]).1 <= code_len
    &&& forall|j: int, k: int|
        0 <= j < f.jumps@.len() && 0 <= k < f.jumps@[j].2@.len() ==> #[trigger] f.jumps@[j].2@[k] + 2
            <= code_len
}

} // verus!
