use vstd::prelude::*;
use crate::chunk::{Chunk, ChunkView, OpCode, op_byte, write_constant_spec};
use crate::closure::CompilerUpvalue;
use crate::function::{FunctionObject, FunctionType, FunctionView};
use crate::scanner::{Scanner, lexeme_of, token_in};
use crate::token::{Token, TokenType};
use crate::value::Value;
use crate::vm::{Vm, VmView, intern_spec};
use crate::value::{ObjData, ObjectView};
use vstd::utf8::{decode_utf8, encode_utf8, encode_utf8_decode_utf8};
use vstd::string::StringSliceAdditionalSpecFns;

pub mod frame;
pub mod expression;
pub mod growth;
pub mod statement;
pub mod parser;
pub mod rules;

use frame::{FunctionCompiler, Local, frame_wf, slot_zero};
use growth::{
    frame_kept, grows, keeps_locals, jump_grows, lemma_grows_refl, lemma_parse_grows, lemma_patch_grows, opens_loop,
};
use parser::{Parser, advance_spec, consume_spec, report};
use rules::{ParseFn, Precedence, get_rule, level, rule_of};

verus! {

/// Compiles source text to bytecode in one pass: a Pratt parser that emits
/// instructions as it parses, with one frame per function being compiled (the last is
/// the innermost).
pub struct Compiler {
    pub parser: Parser,
    pub frames: Vec<FunctionCompiler>,
    pub numbers: Vec<(usize, u64)>,
}

/// How many locals at the top of `locals` are deeper than `depth`.
pub open spec fn deeper_locals(locals: Seq<Local>, depth: usize) -> nat
    decreases locals.len(),
{
    if locals.len() == 0 || locals.last().depth <= depth {
        0
    } else {
        1 + deeper_locals(locals.drop_last(), depth)
    }
}

/// The code that pops `k` locals, keeping the top value when `with_value`.
pub open spec fn discard_code(k: nat, with_value: bool) -> Seq<u8> {
    if k == 0 {
        Seq::empty()
    } else if with_value {
        seq![op_byte(OpCode::OpYield), k as u8]
    } else {
        seq![op_byte(OpCode::OpPopN), k as u8]
    }
}

/// Whether a local is named `name`.
pub open spec fn named(bytes: Seq<u8>, l: Local, name: Seq<u8>) -> bool {
    lexeme_of(bytes, l.token) == name
}

/// The innermost initialized local among the first `hi` named `name`.
pub open spec fn find_local(locals: Seq<Local>, bytes: Seq<u8>, name: Seq<u8>, hi: int) -> Option<int>
    decreases hi,
{
    if hi <= 0 || hi > locals.len() {
        None
    } else if named(bytes, locals[hi - 1], name) && locals[hi - 1].is_initialized {
        Some(hi - 1)
    } else {
        find_local(locals, bytes, name, hi - 1)
    }
}

/// Whether some local named `name` has not finished its initializer.
pub open spec fn uninitialized_named(locals: Seq<Local>, bytes: Seq<u8>, name: Seq<u8>) -> bool {
    exists|j: int| 0 <= j < locals.len() && named(bytes, #[trigger] locals[j], name) && !locals[j].is_initialized
}

/// Whether a local of the current scope (at or deeper than `depth`, from the top down
/// to the first shallower one) is named `name`.
pub open spec fn declared_in_scope(locals: Seq<Local>, bytes: Seq<u8>, name: Seq<u8>, depth: usize) -> bool
    decreases locals.len(),
{
    if locals.len() == 0 || locals.last().depth < depth {
        false
    } else {
        named(bytes, locals.last(), name) || declared_in_scope(locals.drop_last(), bytes, name, depth)
    }
}

/// The position of the capture `(index, is_local)` among `upvalues`, if present.
pub open spec fn find_upvalue(upvalues: Seq<CompilerUpvalue>, index: u8, is_local: bool) -> Option<int>
    decreases upvalues.len(),
{
    if upvalues.len() == 0 {
        None
    } else {
        match find_upvalue(upvalues.drop_last(), index, is_local) {
            Some(i) => Some(i),
            None => if upvalues.last() == (CompilerUpvalue { index, is_local }) {
                Some(upvalues.len() - 1)
            } else {
                None
            },
        }
    }
}

/// Whether one of the first `n` frames has an initialized local named `name`.
pub open spec fn declared_outside(frames: Seq<FunctionCompiler>, bytes: Seq<u8>, name: Seq<u8>, n: int) -> bool {
    exists|j: int| 0 <= j < n && (find_local(#[trigger] frames[j].locals@, bytes, name, frames[j].locals@.len() as int) is Some)
}

/// `code` with the jump distance at `offset` written: from the end of the jump
/// instruction there to the end of the code, modulo 2^16, big-endian.
pub open spec fn patched_at(code: Seq<u8>, offset: int) -> Seq<u8> {
    let jump = (code.len() - offset - 2) % 65536;
    code.update(offset, (jump / 256) as u8).update(offset + 1, (jump % 256) as u8)
}

/// `code` with the jump at each offset of `sites` patched, in order.
pub open spec fn patched_all(code: Seq<u8>, sites: Seq<usize>) -> Seq<u8>
    decreases sites.len(),
{
    if sites.len() == 0 {
        code
    } else {
        patched_at(patched_all(code, sites.drop_last()), sites.last() as int)
    }
}

/// Patching jumps changes no byte outside the patched ones, nor the length.
pub proof fn lemma_patched_all_keeps(code: Seq<u8>, sites: Seq<usize>, i: int)
    requires
        0 <= i < code.len(),
        forall|k: int| 0 <= k < sites.len() ==> #[trigger] sites[k] + 2 <= code.len(),
        forall|k: int| 0 <= k < sites.len() ==> i < #[trigger] sites[k] || sites[k] + 2 <= i,
    ensures
        patched_all(code, sites).len() == code.len(),
        patched_all(code, sites)[i] == code[i],
    decreases sites.len(),
{
    if sites.len() > 0 {
        let d = sites.drop_last();
        assert forall|k: int| 0 <= k < d.len() implies #[trigger] d[k] + 2 <= code.len() by {
            assert(d[k] == sites[k]);
        }
        assert forall|k: int| 0 <= k < d.len() implies i < #[trigger] d[k] || d[k] + 2 <= i by {
            assert(d[k] == sites[k]);
        }
        lemma_patched_all_keeps(code, d, i);
        assert(sites.last() == sites[sites.len() - 1]);
    }
}

/// The pool `cs` after adding `value`: unchanged when it is full.
pub open spec fn constants_after(cs: Seq<Value>, value: Value) -> Seq<Value> {
    match write_constant_spec(cs, value) {
        Some((c, _)) => c,
        None => cs,
    }
}

/// The index that names `value` once added to the pool `cs`; 0 when the pool is full.
pub open spec fn constant_index(cs: Seq<Value>, value: Value) -> u8 {
    match write_constant_spec(cs, value) {
        Some((_, i)) => i as u8,
        None => 0,
    }
}

/// Two frames that differ at most in their chunk.
pub open spec fn same_but_chunk(a: FunctionCompiler, b: FunctionCompiler) -> bool {
    &&& a.locals == b.locals
    &&& a.scope_depth == b.scope_depth
    &&& a.jumps == b.jumps
    &&& a.function_type == b.function_type
    &&& a.upvalues == b.upvalues
    &&& a.function.arity == b.function.arity
    &&& a.function.name == b.function.name
    &&& a.function.upvalue_count == b.function.upvalue_count
}

impl Compiler {
    /// The bytes of the source being compiled.
    pub open spec fn bytes(&self) -> Seq<u8> {
        self.parser.scanner@.bytes
    }

    /// The frame of the innermost function being compiled.
    pub open spec fn cur(&self) -> FunctionCompiler {
        self.frames@.last()
    }

    /// The chunk being written.
    pub open spec fn chunk_view(&self) -> ChunkView {
        self.cur().function.chunk@
    }

    /// The code being written.
    pub open spec fn code(&self) -> Seq<u8> {
        self.chunk_view().code
    }

    /// How much of the source the parser has read: the measure of work left, counted
    /// down from one more than the number of bytes.
    pub open spec fn consumed(&self) -> int {
        self.bytes().len() + 1 - self.parser.progress()
    }

    /// A consistent parser and at least one frame, each consistent, none nested in more
    /// scopes than the parser has read bytes.
    pub open spec fn wf(&self) -> bool {
        &&& self.parser.wf()
        &&& self.frames@.len() >= 1
        &&& forall|i: int| 0 <= i < self.frames@.len() ==> frame_wf(#[trigger] self.frames@[i], self.bytes())
        &&& forall|i: int| 0 <= i < self.frames@.len() ==> (#[trigger] self.frames@[i]).scope_depth <= self.consumed()
    }

    /// `new` results from `old` by appending `emitted` to the current chunk's code, each
    /// byte on the line of the previous token, and nothing else.
    pub open spec fn emits(old: Compiler, new: Compiler, emitted: Seq<u8>) -> bool {
        &&& new.parser == old.parser
        &&& new.numbers == old.numbers
        &&& new.frames@.len() == old.frames@.len()
        &&& forall|i: int| 0 <= i < old.frames@.len() - 1 ==> new.frames@[i] == old.frames@[i]
        &&& same_but_chunk(new.cur(), old.cur())
        &&& new.chunk_view().code == old.code() + emitted
        &&& new.chunk_view().lines == old.chunk_view().lines + Seq::new(
            emitted.len(),
            |i: int| old.parser.previous_token.line,
        )
        &&& new.chunk_view().constants == old.chunk_view().constants
    }

    /// A compiler for `scanner`'s source, compiling a function of kind `function_type`.
    /// `numbers` gives the value (as the bits of a double) of each number literal, by
    /// the byte offset where it starts.
    pub fn new(scanner: Scanner, function_type: FunctionType, numbers: Vec<(usize, u64)>) -> (c: Compiler)
        requires
            scanner.wf(),
        ensures
            c.wf(),
            c.parser.scanner@ == scanner@,
            c.frames@.len() == 1,
            c.cur().function_type == function_type,
            c.code().len() == 0,
            !c.parser.had_error,
            c.numbers == numbers,
    {
        let chunk = Chunk::new();
        let function = FunctionObject::new(chunk, 0, "");
        let frame = FunctionCompiler::new(function, function_type);
        let c = Compiler { parser: Parser::new(scanner), frames: vec![frame], numbers };
        proof {
            assert(token_in(c.bytes(), slot_zero().token));
            assert(frame_wf(c.frames@[0], c.bytes()));
        }
        c
    }

    /// Compiles the whole source as the body of the current function: declarations up
    /// to the end of the source, then the function's end. Gives the function's index in
    /// the heap when no compile error was reported, and nothing otherwise.
    pub fn compile(&mut self, vm: &mut Vm) -> (r: Option<usize>)
        requires
            old(self).wf(),
        ensures
            r is Some <==> final(self).parser.diagnostics@.len() == 0,
            old(self).parser.had_error ==> r is None,
            final(self).parser.previous_token.token_type == TokenType::EOF,
            r matches Some(i) ==> i < final(vm)@.heap.len() && (final(vm)@.heap[i as int].data matches ObjData::Function(
                f,
            ) && expression::ends_with(f.chunk.code, seq![op_byte(OpCode::OpNil), op_byte(OpCode::OpReturn)])),
    {
        self.advance();
        loop
            invariant
                self.wf(),
                old(self).parser.had_error ==> self.parser.had_error,
            ensures
                self.wf(),
                old(self).parser.had_error ==> self.parser.had_error,
                self.parser.previous_token.token_type == TokenType::EOF,
            decreases self.parser.progress(),
        {
            if self.match_token(TokenType::EOF) {
                break;
            }
            self.declaration(vm);
        }
        let ghost s = *self;
        let r = self.end_compiler(vm);
        proof {
            let c = s.code() + seq![op_byte(OpCode::OpNil), op_byte(OpCode::OpReturn)];
            assert(c.subrange(c.len() - 2, c.len() as int) =~= seq![op_byte(OpCode::OpNil), op_byte(OpCode::OpReturn)]);
        }
        r
    }

    /// Finishes the current function: appends `nil` and a return. Without compile
    /// errors, the function (with the number of variables it captures) leaves the
    /// compiler and goes to the heap, whose index is given; with errors, nothing is given.
    pub fn end_compiler(&mut self, vm: &mut Vm) -> (r: Option<usize>)
        requires
            old(self).wf(),
        ensures
            ({
                let line = old(self).parser.previous_token.line;
                let f = old(self).cur().function;
                let done = FunctionView {
                    arity: f.arity,
                    chunk: ChunkView {
                        code: old(self).code() + seq![op_byte(OpCode::OpNil), op_byte(OpCode::OpReturn)],
                        constants: old(self).chunk_view().constants,
                        lines: old(self).chunk_view().lines + Seq::new(2, |i: int| line),
                    },
                    name: f.name@,
                    upvalue_count: old(self).cur().upvalues@.len() as usize,
                };
                if old(self).parser.had_error {
                    &&& r is None
                    &&& final(self).wf()
                    &&& Compiler::emits(
                        *old(self),
                        *final(self),
                        seq![op_byte(OpCode::OpNil), op_byte(OpCode::OpReturn)],
                    )
                    &&& final(vm)@ == old(vm)@
                } else {
                    &&& r is Some && r->0 == old(vm)@.heap.len()
                    &&& final(self).parser == old(self).parser
                    &&& final(self).numbers == old(self).numbers
                    &&& final(self).frames@ == old(self).frames@.drop_last()
                    &&& final(vm)@ == (VmView {
                        heap: old(vm)@.heap.push(ObjectView { data: ObjData::Function(done), is_marked: false }),
                        ..old(vm)@
                    })
                }
            }),
    {
        self.emit_byte(OpCode::OpNil.to_byte());
        self.emit_return();
        proof {
            assert(self.code() =~= old(self).code() + seq![op_byte(OpCode::OpNil), op_byte(OpCode::OpReturn)]);
            assert(self.chunk_view().lines =~= old(self).chunk_view().lines + Seq::new(
                2,
                |i: int| old(self).parser.previous_token.line,
            ));
        }
        if self.parser.had_error {
            return None;
        }
        let upvalue_count = self.frames[self.frames.len() - 1].upvalues.len();
        let mut frame = self.frames.pop().unwrap();
        frame.function.upvalue_count = upvalue_count;
        let r = vm.allocate_function(frame.function);
        Some(r)
    }

    // ── Emission ─────────────────────────────────────────────────────────────

    /// Appends a byte to the current chunk, on the line of the previous token.
    pub fn emit_byte(&mut self, byte: u8)
        requires
            old(self).wf(),
        ensures
            final(self).wf(),
            Compiler::emits(*old(self), *final(self), seq![byte]),
    {
        let line = self.parser.previous_token.line;
        let last = self.frames.len() - 1;
        self.frames[last].function.chunk.write_byte(byte, line);
        proof {
            assert(self.chunk_view().lines =~= old(self).chunk_view().lines + Seq::new(1, |i: int| line));
            assert(self.code() =~= old(self).code() + seq![byte]);
            assert forall|i: int| 0 <= i < self.frames@.len() implies frame_wf(#[trigger] self.frames@[i], self.bytes()) by {
                if i != last {
                    assert(self.frames@[i] == old(self).frames@[i]);
                }
            }
        }
    }

    /// `new` has the same chunks, scope depths, loops and kinds of function as `old`,
    /// the same tokens and source, and no more work left.
    pub open spec fn keeps_code(old: Compiler, new: Compiler) -> bool {
        &&& new.numbers == old.numbers
        &&& old.parser.had_error ==> new.parser.had_error
        &&& new.parser.scanner == old.parser.scanner
        &&& new.parser.current_token == old.parser.current_token
        &&& new.parser.previous_token == old.parser.previous_token
        &&& new.frames@.len() == old.frames@.len()
        &&& forall|i: int|
            0 <= i < old.frames@.len() ==> {
                &&& (#[trigger] new.frames@[i]).function == old.frames@[i].function
                &&& new.frames@[i].scope_depth == old.frames@[i].scope_depth
                &&& new.frames@[i].jumps == old.frames@[i].jumps
                &&& new.frames@[i].function_type == old.frames@[i].function_type
                &&& growth::locals_same(old.frames@[i].locals@, new.frames@[i].locals@)
            }
    }

    /// `new` results from `old` by giving the current chunk the code `code` and the
    /// constants `constants`, and nothing else.
    pub open spec fn rewrites(old: Compiler, new: Compiler, code: Seq<u8>, constants: Seq<Value>) -> bool {
        &&& new.parser == old.parser
        &&& new.numbers == old.numbers
        &&& new.frames@.len() == old.frames@.len()
        &&& forall|i: int| 0 <= i < old.frames@.len() - 1 ==> new.frames@[i] == old.frames@[i]
        &&& same_but_chunk(new.cur(), old.cur())
        &&& new.chunk_view().code == code
        &&& new.chunk_view().lines == old.chunk_view().lines
        &&& new.chunk_view().constants == constants
    }

    /// Appends two bytes.
    pub fn emit_bytes(&mut self, byte1: u8, byte2: u8)
        requires
            old(self).wf(),
        ensures
            final(self).wf(),
            Compiler::emits(*old(self), *final(self), seq![byte1, byte2]),
    {
        self.emit_byte(byte1);
        self.emit_byte(byte2);
        proof {
            assert(self.code() =~= old(self).code() + seq![byte1, byte2]);
            assert(self.chunk_view().lines =~= old(self).chunk_view().lines + Seq::new(
                2,
                |i: int| old(self).parser.previous_token.line,
            ));
        }
    }

    /// `new` results from `old` by adding `value` to the current constant pool, and
    /// nothing else; when the pool is full the pool stays as it was and that is reported
    /// at the previous token.
    pub open spec fn makes_constant(old: Compiler, new: Compiler, value: Value) -> bool {
        let cs = old.chunk_view().constants;
        &&& new.numbers == old.numbers
        &&& new.frames@.len() == old.frames@.len()
        &&& forall|i: int| 0 <= i < old.frames@.len() - 1 ==> new.frames@[i] == old.frames@[i]
        &&& same_but_chunk(new.cur(), old.cur())
        &&& new.code() == old.code()
        &&& new.chunk_view().lines == old.chunk_view().lines
        &&& new.chunk_view().constants == constants_after(cs, value)
        &&& new.parser.previous_token == old.parser.previous_token
        &&& if write_constant_spec(cs, value) is Some {
            new.parser == old.parser
        } else {
            new.parser@ == report(old.parser@, old.parser.previous_token, "Too many constants in one chunk."@)
        }
    }

    /// `new` results from `old` by adding `value` to the current constant pool (as
    /// `makes_constant` says) and appending an instruction that loads it, on the line of
    /// the previous token.
    pub open spec fn loads_constant(old: Compiler, new: Compiler, value: Value) -> bool {
        let cs = old.chunk_view().constants;
        &&& new.chunk_view().constants == constants_after(cs, value)
        &&& new.code() == old.code() + seq![op_byte(OpCode::OpConstant), constant_index(cs, value)]
        &&& new.chunk_view().lines == old.chunk_view().lines + Seq::new(2, |i: int| old.parser.previous_token.line)
        &&& new.numbers == old.numbers
        &&& new.frames@.len() == old.frames@.len()
        &&& forall|i: int| 0 <= i < old.frames@.len() - 1 ==> new.frames@[i] == old.frames@[i]
        &&& same_but_chunk(new.cur(), old.cur())
        &&& new.parser.previous_token == old.parser.previous_token
        &&& if write_constant_spec(cs, value) is Some {
            new.parser == old.parser
        } else {
            new.parser@ == report(old.parser@, old.parser.previous_token, "Too many constants in one chunk."@)
        }
    }

    /// Adds `value` to the constant pool and appends an instruction that loads it.
    pub fn emit_constant(&mut self, value: Value)
        requires
            old(self).wf(),
        ensures
            final(self).wf(),
            Compiler::loads_constant(*old(self), *final(self), value),
    {
        let index = self.add_constant(value);
        let ghost s1 = *self;
        let op = OpCode::OpConstant.to_byte();
        self.emit_bytes(op, index);
        proof {
            assert(self.chunk_view().lines =~= old(self).chunk_view().lines + Seq::new(
                2,
                |i: int| old(self).parser.previous_token.line,
            ));
            assert forall|i: int| 0 <= i < old(self).frames@.len() - 1 implies self.frames@[i] == old(self).frames@[i] by {
                assert(self.frames@[i] == s1.frames@[i]);
            }
        }
    }

    /// Appends a return instruction.
    pub fn emit_return(&mut self)
        requires
            old(self).wf(),
        ensures
            final(self).wf(),
            Compiler::emits(*old(self), *final(self), seq![op_byte(OpCode::OpReturn)]),
    {
        let op = OpCode::OpReturn.to_byte();
        self.emit_byte(op);
    }

    /// Appends a pop instruction.
    pub fn emit_pop(&mut self)
        requires
            old(self).wf(),
        ensures
            final(self).wf(),
            Compiler::emits(*old(self), *final(self), seq![op_byte(OpCode::OpPop)]),
    {
        let op = OpCode::OpPop.to_byte();
        self.emit_byte(op);
    }

    /// Appends a backward jump to `loop_start`: the distance from the end of the
    /// instruction back to it, modulo 2^16, big-endian.
    pub fn emit_loop(&mut self, loop_start: usize)
        requires
            old(self).wf(),
            loop_start <= old(self).code().len(),
        ensures
            final(self).wf(),
            ({
                let offset = (old(self).code().len() + 3 - loop_start) % 65536;
                Compiler::emits(
                    *old(self),
                    *final(self),
                    seq![op_byte(OpCode::OpLoop), (offset / 256) as u8, (offset % 256) as u8],
                )
            }),
    {
        let op = OpCode::OpLoop.to_byte();
        self.emit_byte(op);
        let last = self.frames.len() - 1;
        let count = self.frames[last].function.chunk.count();
        let offset = (((count - loop_start) % 65536 + 2) % 65536) as u16;
        proof {
            let c = count as int;
            let l = loop_start as int;
            assert(((c - l) % 65536 + 2) % 65536 == (c + 2 - l) % 65536) by (nonlinear_arith)
                requires
                    c >= l,
            ;
        }
        self.emit_bytes((offset / 256) as u8, (offset % 256) as u8);
        proof {
            let off = (old(self).code().len() + 3 - loop_start) % 65536;
            assert(self.code() =~= old(self).code() + seq![op_byte(OpCode::OpLoop), (off / 256) as u8, (off % 256) as u8]);
            assert(self.chunk_view().lines =~= old(self).chunk_view().lines + Seq::new(
                3,
                |i: int| old(self).parser.previous_token.line,
            ));
        }
    }

    /// Appends a jump instruction with a placeholder distance and gives the offset of
    /// the distance, to patch later.
    pub fn emit_jump(&mut self, op_code: OpCode) -> (site: usize)
        requires
            old(self).wf(),
        ensures
            final(self).wf(),
            Compiler::emits(*old(self), *final(self), seq![op_byte(op_code), 0xffu8, 0xffu8]),
            site == old(self).code().len() + 1,
    {
        let op = op_code.to_byte();
        self.emit_byte(op);
        self.emit_bytes(0xff, 0xff);
        proof {
            assert(self.code() =~= old(self).code() + seq![op_byte(op_code), 0xffu8, 0xffu8]);
            assert(self.chunk_view().lines =~= old(self).chunk_view().lines + Seq::new(
                3,
                |i: int| old(self).parser.previous_token.line,
            ));
        }
        let last = self.frames.len() - 1;
        self.frames[last].function.chunk.count() - 2
    }

    /// Writes at `offset` the distance from the end of the jump instruction there to the
    /// end of the code, modulo 2^16, big-endian.
    pub fn patch_jump(&mut self, offset: usize)
        requires
            old(self).wf(),
            offset + 2 <= old(self).code().len(),
        ensures
            final(self).wf(),
            ({
                let jump = (old(self).code().len() - offset - 2) % 65536;
                Compiler::rewrites(
                    *old(self),
                    *final(self),
                    old(self).code().update(offset as int, (jump / 256) as u8).update(offset + 1, (jump % 256) as u8),
                    old(self).chunk_view().constants,
                )
            }),
    {
        let last = self.frames.len() - 1;
        let count = self.frames[last].function.chunk.count();
        let jump = ((count - offset - 2) % 65536) as u16;
        self.frames[last].function.chunk.write_byte_at(offset, (jump / 256) as u8);
        self.frames[last].function.chunk.write_byte_at(offset + 1, (jump % 256) as u8);
        proof {
            assert forall|i: int| 0 <= i < self.frames@.len() implies frame_wf(#[trigger] self.frames@[i], self.bytes()) by {
                if i != last {
                    assert(self.frames@[i] == old(self).frames@[i]);
                }
            }
        }
    }

    // ── Access ───────────────────────────────────────────────────────────────

    /// The frame of the innermost function being compiled, for changing it.
    pub fn frame(&mut self) -> (f: &mut FunctionCompiler)
        requires
            old(self).frames@.len() >= 1,
        ensures
            *f == old(self).cur(),
            final(self).frames@ == old(self).frames@.update(old(self).frames@.len() - 1, *final(f)),
            final(self).parser == old(self).parser,
            final(self).numbers == old(self).numbers,
    {
        let last = self.frames.len() - 1;
        &mut self.frames[last]
    }

    /// The function being compiled, for changing it.
    pub fn function(&mut self) -> (f: &mut FunctionObject)
        requires
            old(self).frames@.len() >= 1,
        ensures
            *f == old(self).cur().function,
            final(self).frames@ == old(self).frames@.update(
                old(self).frames@.len() - 1,
                FunctionCompiler { function: *final(f), ..old(self).cur() },
            ),
            final(self).parser == old(self).parser,
            final(self).numbers == old(self).numbers,
    {
        let last = self.frames.len() - 1;
        &mut self.frames[last].function
    }

    /// The chunk being written, for changing it.
    pub fn chunk(&mut self) -> (c: &mut Chunk)
        requires
            old(self).frames@.len() >= 1,
        ensures
            *c == old(self).cur().function.chunk,
            final(self).frames@ == old(self).frames@.update(
                old(self).frames@.len() - 1,
                FunctionCompiler {
                    function: FunctionObject { chunk: *final(c), ..old(self).cur().function },
                    ..old(self).cur()
                },
            ),
            final(self).parser == old(self).parser,
            final(self).numbers == old(self).numbers,
    {
        let last = self.frames.len() - 1;
        &mut self.frames[last].function.chunk
    }

    /// The locals of the function being compiled, for changing them.
    pub fn locals(&mut self) -> (l: &mut Vec<Local>)
        requires
            old(self).frames@.len() >= 1,
        ensures
            *l == old(self).cur().locals,
            final(self).frames@ == old(self).frames@.update(
                old(self).frames@.len() - 1,
                FunctionCompiler { locals: *final(l), ..old(self).cur() },
            ),
            final(self).parser == old(self).parser,
            final(self).numbers == old(self).numbers,
    {
        let last = self.frames.len() - 1;
        &mut self.frames[last].locals
    }

    /// The enclosing loops of the function being compiled, for changing them.
    pub fn jumps(&mut self) -> (j: &mut Vec<(usize, usize, Vec<usize>)>)
        requires
            old(self).frames@.len() >= 1,
        ensures
            *j == old(self).cur().jumps,
            final(self).frames@ == old(self).frames@.update(
                old(self).frames@.len() - 1,
                FunctionCompiler { jumps: *final(j), ..old(self).cur() },
            ),
            final(self).parser == old(self).parser,
            final(self).numbers == old(self).numbers,
    {
        let last = self.frames.len() - 1;
        &mut self.frames[last].jumps
    }

    /// Moves past the current token if it is of kind `token_type`, else reports `message`.
    pub fn consume(&mut self, token_type: TokenType, message: &'static str)
        requires
            old(self).wf(),
        ensures
            final(self).wf(),
            final(self).parser@ == consume_spec(old(self).parser@, token_type, message@),
            final(self).parser.progress() <= old(self).parser.progress(),
            final(self).frames == old(self).frames,
            final(self).numbers == old(self).numbers,
            grows(*old(self), *final(self)),
    {
        let ghost s0 = *self;
        self.parser.consume(token_type, message);
        proof {
            lemma_grows_refl(s0);
            lemma_parse_grows(s0, s0, *self);
        }
    }

    /// Moves one token forward.
    fn advance(&mut self)
        requires
            old(self).wf(),
        ensures
            final(self).wf(),
            grows(*old(self), *final(self)),
            final(self).frames == old(self).frames,
            final(self).parser@ == advance_spec(old(self).parser@),
            final(self).parser.previous_token == old(self).parser.current_token,
            old(self).parser.current_token.token_type != TokenType::EOF ==> final(self).parser.progress()
                < old(self).parser.progress(),
    {
        let ghost s0 = *self;
        self.parser.advance();
        proof {
            lemma_grows_refl(s0);
            lemma_parse_grows(s0, s0, *self);
        }
    }

    /// Moves past the current token when it is of kind `token_type`, saying whether it did.
    fn match_token(&mut self, token_type: TokenType) -> (r: bool)
        requires
            old(self).wf(),
        ensures
            final(self).wf(),
            grows(*old(self), *final(self)),
            final(self).frames == old(self).frames,
            r == (old(self).parser.current_token.token_type == token_type),
            r ==> final(self).parser@ == advance_spec(old(self).parser@),
            r ==> final(self).parser.previous_token == old(self).parser.current_token,
            !r ==> *final(self) == *old(self),
            r && token_type != TokenType::EOF ==> final(self).parser.progress() < old(self).parser.progress(),
    {
        let ghost s0 = *self;
        let r = self.parser.match_token_type(token_type);
        proof {
            lemma_grows_refl(s0);
            lemma_parse_grows(s0, s0, *self);
        }
        r
    }

    // ── Loops ────────────────────────────────────────────────────────────────

    /// Opens a loop of the current function whose `continue` jumps to `start`.
    fn open_loop(&mut self, start: usize)
        requires
            old(self).wf(),
            start <= old(self).code().len(),
        ensures
            final(self).wf(),
            opens_loop(*old(self), *final(self)),
            final(self).parser == old(self).parser,
            final(self).code() == old(self).code(),
            final(self).cur().locals == old(self).cur().locals,
            final(self).cur().jumps@.last().0 == old(self).cur().scope_depth,
            final(self).cur().jumps@.last().1 == start,
    {
        let last = self.frames.len() - 1;
        let depth = self.frames[last].scope_depth;
        self.frames[last].jumps.push((depth, start, Vec::new()));
        proof {
            assert forall|i: int| 0 <= i < self.frames@.len() implies frame_wf(#[trigger] self.frames@[i], self.bytes()) by {
                if i != last {
                    assert(self.frames@[i] == old(self).frames@[i]);
                } else {
                    let js = self.cur().jumps@;
                    assert forall|j: int, k: int| 0 <= j < js.len() && 0 <= k < js[j].2@.len() implies #[trigger] js[j].2@[k] + 2 <= self.code().len() by {
                        assert(js[j] == old(self).cur().jumps@[j]);
                    }
                }
            }
            let a = *old(self);
            assert(self.code().subrange(0, a.code().len() as int) =~= a.code());
            assert forall|i: int| 0 <= i < a.frames@.len() - 1 implies frame_kept(#[trigger] a.frames@[i], self.frames@[i]) by {
                assert(self.frames@[i] == a.frames@[i]);
            }
            assert forall|j: int| 0 <= j < a.cur().jumps@.len() implies jump_grows(#[trigger] a.cur().jumps@[j], self.cur().jumps@[j], a.code().len()) by {
                assert(self.cur().jumps@[j] == a.cur().jumps@[j]);
                assert(a.cur().jumps@[j].2@.subrange(0, a.cur().jumps@[j].2@.len() as int) =~= a.cur().jumps@[j].2@);
            }
        }
    }

    /// Makes `start` the target of `continue` in the innermost loop.
    fn set_loop_start(&mut self, start: usize, Ghost(a): Ghost<Compiler>)
        requires
            old(self).wf(),
            a.frames@.len() >= 1,
            opens_loop(a, *old(self)),
            start <= old(self).code().len(),
        ensures
            final(self).wf(),
            opens_loop(a, *final(self)),
            final(self).parser == old(self).parser,
            final(self).code() == old(self).code(),
            final(self).cur().locals == old(self).cur().locals,
            final(self).cur().jumps@.last().1 == start,
    {
        let last = self.frames.len() - 1;
        let ghost js = self.cur().jumps@;
        let entry = self.frames[last].jumps.pop().unwrap();
        let (depth, _, breaks) = entry;
        self.frames[last].jumps.push((depth, start, breaks));
        proof {
            let n = js.len() - 1;
            assert(self.cur().jumps@ =~= js.update(n, (depth, start, breaks)));
            assert forall|i: int| 0 <= i < self.frames@.len() implies frame_wf(#[trigger] self.frames@[i], self.bytes()) by {
                if i != last {
                    assert(self.frames@[i] == old(self).frames@[i]);
                } else {
                    let nj = self.cur().jumps@;
                    assert forall|j: int, k: int| 0 <= j < nj.len() && 0 <= k < nj[j].2@.len() implies #[trigger] nj[j].2@[k] + 2 <= self.code().len() by {
                        assert(nj[j].2 == js[j].2);
                    }
                }
            }
            assert forall|i: int| 0 <= i < a.frames@.len() - 1 implies frame_kept(#[trigger] a.frames@[i], self.frames@[i]) by {
                assert(frame_kept(a.frames@[i], old(self).frames@[i]));
                assert(self.frames@[i] == old(self).frames@[i]);
            }
            assert forall|j: int| 0 <= j < a.cur().jumps@.len() implies jump_grows(#[trigger] a.cur().jumps@[j], self.cur().jumps@[j], a.code().len()) by {
                assert(jump_grows(a.cur().jumps@[j], old(self).cur().jumps@[j], a.code().len()));
            }
            assert(self.cur().jumps@.last().2 == js.last().2);
        }
    }

    /// Closes the innermost loop, giving its `break` jumps still to patch.
    fn close_loop(&mut self) -> (breaks: Vec<usize>)
        requires
            old(self).wf(),
            old(self).cur().jumps@.len() >= 1,
        ensures
            final(self).wf(),
            final(self).numbers == old(self).numbers,
            final(self).parser == old(self).parser,
            final(self).frames@.len() == old(self).frames@.len(),
            forall|i: int| 0 <= i < old(self).frames@.len() - 1 ==> final(self).frames@[i] == old(self).frames@[i],
            final(self).cur().function == old(self).cur().function,
            final(self).cur().scope_depth == old(self).cur().scope_depth,
            final(self).cur().function_type == old(self).cur().function_type,
            final(self).cur().locals == old(self).cur().locals,
            final(self).cur().jumps@ == old(self).cur().jumps@.drop_last(),
            breaks@ == old(self).cur().jumps@.last().2@,
    {
        let last = self.frames.len() - 1;
        let entry = self.frames[last].jumps.pop().unwrap();
        let (_, _, breaks) = entry;
        proof {
            assert forall|i: int| 0 <= i < self.frames@.len() implies frame_wf(#[trigger] self.frames@[i], self.bytes()) by {
                if i != last {
                    assert(self.frames@[i] == old(self).frames@[i]);
                } else {
                    let nj = self.cur().jumps@;
                    assert forall|j: int, k: int| 0 <= j < nj.len() && 0 <= k < nj[j].2@.len() implies #[trigger] nj[j].2@[k] + 2 <= self.code().len() by {
                        assert(nj[j] == old(self).cur().jumps@[j]);
                    }
                }
            }
        }
        breaks
    }

    /// Patches each jump of `breaks`, all in the code written since `a`, to the end of
    /// the code.
    fn patch_breaks(&mut self, breaks: &Vec<usize>, Ghost(a): Ghost<Compiler>)
        requires
            old(self).wf(),
            a.frames@.len() >= 1,
            grows(a, *old(self)),
            forall|k: int| 0 <= k < breaks@.len() ==> #[trigger] breaks@[k] >= a.code().len() && breaks@[k] + 2
                <= old(self).code().len(),
        ensures
            final(self).wf(),
            grows(a, *final(self)),
            keeps_locals(a, *old(self)) ==> keeps_locals(a, *final(self)),
            final(self).code().len() == old(self).code().len(),
            Compiler::rewrites(
                *old(self),
                *final(self),
                patched_all(old(self).code(), breaks@),
                old(self).chunk_view().constants,
            ),
    {
        let mut i: usize = 0;
        proof {
            assert(breaks@.take(0) =~= Seq::<usize>::empty());
            assert(self.chunk_view().code == old(self).code());
        }
        while i < breaks.len()
            invariant
                self.wf(),
                grows(a, *self),
                keeps_locals(a, *old(self)) ==> keeps_locals(a, *self),
                a.frames@.len() >= 1,
                i <= breaks@.len(),
                self.code().len() == old(self).code().len(),
                Compiler::rewrites(
                    *old(self),
                    *self,
                    patched_all(old(self).code(), breaks@.take(i as int)),
                    old(self).chunk_view().constants,
                ),
                forall|k: int| 0 <= k < breaks@.len() ==> #[trigger] breaks@[k] >= a.code().len() && breaks@[k] + 2
                    <= old(self).code().len(),
            decreases breaks@.len() - i,
        {
            let ghost s = *self;
            let site = breaks[i];
            self.patch_jump(site);
            proof {
                assert(self.code().subrange(0, site as int) =~= s.code().subrange(0, site as int));
                lemma_patch_grows(a, s, *self, site as int);
                assert(breaks@.take(i + 1).drop_last() =~= breaks@.take(i as int));
                assert(breaks@.take(i + 1).last() == site);
                assert forall|k: int| 0 <= k < old(self).frames@.len() - 1 implies self.frames@[k] == old(
                    self,
                ).frames@[k] by {
                    assert(self.frames@[k] == s.frames@[k]);
                }
            }
            i = i + 1;
        }
        proof {
            assert(breaks@.take(i as int) =~= breaks@);
        }
    }

    /// Adds `value` to the constant pool and gives its index; when the pool is full,
    /// reports that and gives 0.
    fn add_constant(&mut self, value: Value) -> (idx: u8)
        requires
            old(self).wf(),
        ensures
            final(self).wf(),
            Compiler::makes_constant(*old(self), *final(self), value),
            idx == constant_index(old(self).chunk_view().constants, value),
    {
        let last = self.frames.len() - 1;
        match self.frames[last].function.chunk.write_constant(value) {
            Some(idx) => {
                proof {
                    assert forall|k: int| 0 <= k < self.frames@.len() implies frame_wf(#[trigger] self.frames@[k], self.bytes()) by {
                        if k != last {
                            assert(self.frames@[k] == old(self).frames@[k]);
                        }
                    }
                }
                idx
            },
            None => {
                proof {
                    assert forall|k: int| 0 <= k < self.frames@.len() implies frame_wf(#[trigger] self.frames@[k], self.bytes()) by {
                        if k != last {
                            assert(self.frames@[k] == old(self).frames@[k]);
                        }
                    }
                }
                let prev = self.parser.previous_token;
                self.error_at(prev, "Too many constants in one chunk.");
                0
            },
        }
    }

    /// Reports `message` at `token`.
    pub fn error_at(&mut self, token: Token, message: &'static str)
        requires
            old(self).wf(),
            !old(self).parser.panic_mode && parser::has_lexeme(token) ==> token_in(old(self).bytes(), token),
        ensures
            final(self).wf(),
            final(self).parser@ == report(old(self).parser@, token, message@),
            old(self).parser.panic_mode ==> *final(self) == *old(self),
            final(self).parser.scanner == old(self).parser.scanner,
            final(self).parser.current_token == old(self).parser.current_token,
            final(self).parser.previous_token == old(self).parser.previous_token,
            final(self).frames == old(self).frames,
            final(self).numbers == old(self).numbers,
    {
        self.parser.error_at(token, message);
    }

    // ── Scopes and locals ────────────────────────────────────────────────────

    /// Whether two tokens have the same lexeme.
    fn same_identifier(&self, a: Token, b: Token) -> (r: bool)
        requires
            self.parser.wf(),
            token_in(self.bytes(), a),
            token_in(self.bytes(), b),
        ensures
            r == (lexeme_of(self.bytes(), a) == lexeme_of(self.bytes(), b)),
    {
        if a.length != b.length {
            return false;
        }
        let la = self.parser.scanner.lexeme_bytes(a);
        let lb = self.parser.scanner.lexeme_bytes(b);
        let mut i: usize = 0;
        while i < la.len()
            invariant
                la@ == lexeme_of(self.bytes(), a),
                lb@ == lexeme_of(self.bytes(), b),
                la@.len() == lb@.len(),
                i <= la@.len(),
                forall|j: int| 0 <= j < i ==> la@[j] == lb@[j],
            decreases la@.len() - i,
        {
            if la[i] != lb[i] {
                proof {
                    assert(la@[i as int] != lb@[i as int]);
                }
                return false;
            }
            i = i + 1;
        }
        proof {
            assert(la@ =~= lb@);
        }
        true
    }

    /// Opens a scope.
    fn begin_scope(&mut self)
        requires
            old(self).wf(),
            old(self).cur().scope_depth < old(self).consumed(),
        ensures
            final(self).wf(),
            final(self).parser == old(self).parser,
            final(self).numbers == old(self).numbers,
            final(self).frames@ == old(self).frames@.update(
                old(self).frames@.len() - 1,
                FunctionCompiler { scope_depth: (old(self).cur().scope_depth + 1) as usize, ..old(self).cur() },
            ),
    {
        proof {
            assert(self.parser.progress() <= self.bytes().len() + 1);
        }
        let last = self.frames.len() - 1;
        self.frames[last].scope_depth = self.frames[last].scope_depth + 1;
        proof {
            assert forall|i: int| 0 <= i < self.frames@.len() implies frame_wf(#[trigger] self.frames@[i], self.bytes()) by {
                if i != last {
                    assert(self.frames@[i] == old(self).frames@[i]);
                } else {
                    let ls = self.cur().locals@;
                    assert(ls == old(self).cur().locals@);
                    assert forall|j: int| 0 <= j < ls.len() implies (#[trigger] ls[j]).depth <= self.cur().scope_depth by {
                        assert(frame_wf(old(self).cur(), self.bytes()));
                    }
                }
            }
            assert forall|i: int| 0 <= i < self.frames@.len() implies (#[trigger] self.frames@[i]).scope_depth <= self.consumed() by {
                if i != last {
                    assert(self.frames@[i] == old(self).frames@[i]);
                }
            }
        }
    }

    /// Closes scopes down to `target_depth`: counts the locals deeper than it from the
    /// top, forgets them when `modify_compiler_state`, and when there are some emits an
    /// instruction popping them (keeping the value on top when `with_value`).
    fn discard_locals(&mut self, target_depth: usize, modify_compiler_state: bool, with_value: bool)
        requires
            old(self).wf(),
        ensures
            final(self).wf(),
            deeper_locals(old(self).cur().locals@, target_depth) < old(self).cur().locals@.len(),
            final(self).parser == old(self).parser,
            final(self).numbers == old(self).numbers,
            final(self).frames@.len() == old(self).frames@.len(),
            forall|i: int| 0 <= i < old(self).frames@.len() - 1 ==> final(self).frames@[i] == old(self).frames@[i],
            final(self).cur().locals@ == (if modify_compiler_state {
                old(self).cur().locals@.take(
                    old(self).cur().locals@.len() - deeper_locals(old(self).cur().locals@, target_depth),
                )
            } else {
                old(self).cur().locals@
            }),
            final(self).cur().scope_depth == old(self).cur().scope_depth,
            final(self).cur().jumps == old(self).cur().jumps,
            final(self).cur().function_type == old(self).cur().function_type,
            final(self).cur().function.name == old(self).cur().function.name,
            final(self).cur().function.arity == old(self).cur().function.arity,
            final(self).cur().upvalues == old(self).cur().upvalues,
            final(self).code() == old(self).code() + discard_code(
                deeper_locals(old(self).cur().locals@, target_depth),
                with_value,
            ),
            final(self).chunk_view().constants == old(self).chunk_view().constants,
    {
        let last = self.frames.len() - 1;
        let n = self.frames[last].locals.len();
        let ghost locals = self.cur().locals@;
        let mut i = n;
        let mut pop_count: usize = 0;
        proof {
            assert(locals.take(n as int) =~= locals);
        }
        while i > 0 && self.frames[last].locals[i - 1].depth > target_depth
            invariant
                self == old(self),
                locals == self.cur().locals@,
                self.frames@.len() >= 1,
                last == self.frames@.len() - 1,
                n == locals.len(),
                1 <= i <= n,
                pop_count == n - i,
                locals[0].depth == 0,
                deeper_locals(locals, target_depth) == pop_count + deeper_locals(locals.take(i as int), target_depth),
            decreases i,
        {
            proof {
                assert(locals.take(i as int).drop_last() =~= locals.take(i - 1));
                assert(locals.take(i as int).last() == locals[i - 1]);
            }
            pop_count = pop_count + 1;
            i = i - 1;
        }
        proof {
            assert(locals.take(i as int).last() == locals[i - 1]);
        }
        if modify_compiler_state {
            self.frames[last].locals.truncate(n - pop_count);
            proof {
                assert(self.cur().locals@ =~= locals.take(n - pop_count));
            }
        }
        proof {
            assert forall|k: int| 0 <= k < self.frames@.len() implies frame_wf(#[trigger] self.frames@[k], self.bytes()) by {
                if k != last {
                    assert(self.frames@[k] == old(self).frames@[k]);
                } else {
                    assert(self.cur().locals@.len() >= 1);
                    assert(self.cur().locals@[0] == locals[0]);
                }
            }
        }
        if pop_count > 0 {
            let op = if with_value {
                OpCode::OpYield.to_byte()
            } else {
                OpCode::OpPopN.to_byte()
            };
            self.emit_bytes(op, pop_count as u8);
        } else {
            proof {
                assert(self.code() =~= old(self).code() + Seq::<u8>::empty());
            }
        }
    }

    /// Closes a scope: lowers the depth and discards the locals deeper than it.
    fn end_scope(&mut self, with_value: bool)
        requires
            old(self).wf(),
            old(self).cur().scope_depth >= 1,
        ensures
            final(self).wf(),
            ({
                let d = (old(self).cur().scope_depth - 1) as usize;
                let k = deeper_locals(old(self).cur().locals@, d);
                &&& k < old(self).cur().locals@.len()
                &&& final(self).cur().scope_depth == d
                &&& final(self).cur().locals@ == old(self).cur().locals@.take(old(self).cur().locals@.len() - k)
                &&& final(self).code() == old(self).code() + discard_code(k, with_value)
            }),
            final(self).parser == old(self).parser,
            final(self).numbers == old(self).numbers,
            final(self).frames@.len() == old(self).frames@.len(),
            forall|i: int| 0 <= i < old(self).frames@.len() - 1 ==> final(self).frames@[i] == old(self).frames@[i],
            final(self).cur().jumps == old(self).cur().jumps,
            final(self).cur().function_type == old(self).cur().function_type,
            final(self).cur().function.name == old(self).cur().function.name,
            final(self).cur().function.arity == old(self).cur().function.arity,
            final(self).cur().upvalues == old(self).cur().upvalues,
            final(self).chunk_view().constants == old(self).chunk_view().constants,
    {
        let last = self.frames.len() - 1;
        let depth = self.frames[last].scope_depth - 1;
        let ghost s0 = *self;
        self.discard_locals(depth, true, with_value);
        let ghost s1 = *self;
        self.frames[last].scope_depth = depth;
        proof {
            let ol = s0.cur().locals@;
            let k = deeper_locals(ol, depth);
            lemma_deeper_stop(ol, depth);
            assert(frame_wf(s0.cur(), self.bytes()));
            assert forall|i: int| 0 <= i < self.frames@.len() implies frame_wf(#[trigger] self.frames@[i], self.bytes()) by {
                if i != last {
                    assert(self.frames@[i] == s1.frames@[i]);
                } else {
                    let ls = self.cur().locals@;
                    assert(frame_wf(s1.cur(), self.bytes()));
                    assert forall|j: int| 0 <= j < ls.len() implies (#[trigger] ls[j]).depth <= depth by {
                        assert(ls[j] == ol[j]);
                        assert(ol[j].depth <= ol[ol.len() - k - 1].depth);
                    }
                }
            }
            assert forall|i: int| 0 <= i < self.frames@.len() implies (#[trigger] self.frames@[i]).scope_depth <= self.consumed() by {
                if i != last {
                    assert(self.frames@[i] == s1.frames@[i]);
                    assert(s1.frames@[i] == s0.frames@[i]);
                }
            }
        }
    }

    /// Resolves the previous token as a local of frame `frame_ix`: the innermost
    /// initialized local of that name. When there is none but some local of that name is
    /// still in its initializer, reports reading it there.
    fn resolve_local(&mut self, frame_ix: usize) -> (r: (bool, u8))
        requires
            old(self).wf(),
            frame_ix < old(self).frames@.len(),
        ensures
            final(self).wf(),
            final(self).frames == old(self).frames,
            final(self).numbers == old(self).numbers,
            final(self).parser.scanner == old(self).parser.scanner,
            final(self).parser.current_token == old(self).parser.current_token,
            final(self).parser.previous_token == old(self).parser.previous_token,
            ({
                let ls = old(self).frames@[frame_ix as int].locals@;
                let name = lexeme_of(old(self).bytes(), old(self).parser.previous_token);
                match find_local(ls, old(self).bytes(), name, ls.len() as int) {
                    Some(i) => r == (true, i as u8) && final(self).parser@ == old(self).parser@,
                    None => r == (false, 0u8) && final(self).parser@ == (if uninitialized_named(ls, old(self).bytes(), name) {
                        report(old(self).parser@, old(self).parser.previous_token, "Can't read local variable in its own initializer"@)
                    } else {
                        old(self).parser@
                    }),
                }
            }),
    {
        let token = self.parser.previous_token;
        let ghost ls = self.frames@[frame_ix as int].locals@;
        let ghost name = lexeme_of(self.bytes(), token);
        let mut found_uninitialized = false;
        let len = self.frames[frame_ix].locals.len();
        let mut i = len;
        while i > 0
            invariant
                self == old(self),
                ls == self.frames@[frame_ix as int].locals@,
                frame_ix < self.frames@.len(),
                self.wf(),
                token == self.parser.previous_token,
                name == lexeme_of(self.bytes(), token),
                len == ls.len(),
                i <= len,
                find_local(ls, self.bytes(), name, i as int) == find_local(ls, self.bytes(), name, len as int),
                found_uninitialized == exists|j: int| i <= j < len && named(self.bytes(), #[trigger] ls[j], name) && !ls[j].is_initialized,
            decreases i,
        {
            i = i - 1;
            let local = self.frames[frame_ix].locals[i];
            proof {
                assert(frame_wf(self.frames@[frame_ix as int], self.bytes()));
                assert(token_in(self.bytes(), ls[i as int].token));
            }
            if self.same_identifier(local.token, token) {
                if !local.is_initialized {
                    found_uninitialized = true;
                    continue;
                }
                return (true, i as u8);
            }
        }
        proof {
            assert(found_uninitialized == uninitialized_named(ls, self.bytes(), name));
        }
        if found_uninitialized {
            self.error_at(token, "Can't read local variable in its own initializer");
        }
        (false, 0)
    }

    /// The capture of `(index, is_local)` by frame `frame_ix`: its position, adding it
    /// when new (positions modulo 256).
    fn add_upvalue(&mut self, frame_ix: usize, index: u8, is_local: bool) -> (slot: u8)
        requires
            old(self).wf(),
            frame_ix < old(self).frames@.len(),
        ensures
            final(self).wf(),
            final(self).parser == old(self).parser,
            final(self).numbers == old(self).numbers,
            final(self).frames@.len() == old(self).frames@.len(),
            forall|i: int| 0 <= i < old(self).frames@.len() && i != frame_ix ==> final(self).frames@[i] == old(self).frames@[i],
            ({
                let f = old(self).frames@[frame_ix as int];
                let g = final(self).frames@[frame_ix as int];
                &&& g.locals == f.locals
                &&& g.scope_depth == f.scope_depth
                &&& g.jumps == f.jumps
                &&& g.function == f.function
                &&& g.function_type == f.function_type
                &&& match find_upvalue(f.upvalues@, index, is_local) {
                    Some(i) => g.upvalues@ == f.upvalues@ && slot as int == i % 256,
                    None => g.upvalues@ == f.upvalues@.push(CompilerUpvalue { index, is_local })
                        && slot as int == f.upvalues@.len() % 256,
                }
            }),
    {
        let ghost ups = self.frames@[frame_ix as int].upvalues@;
        let n = self.frames[frame_ix].upvalues.len();
        let mut i: usize = 0;
        while i < n
            invariant
                self == old(self),
                ups == self.frames@[frame_ix as int].upvalues@,
                self.wf(),
                frame_ix < self.frames@.len(),
                n == ups.len(),
                i <= n,
                find_upvalue(ups.take(i as int), index, is_local) is None,
            decreases n - i,
        {
            let uv = self.frames[frame_ix].upvalues[i];
            proof {
                assert(ups.take(i + 1).drop_last() =~= ups.take(i as int));
            }
            if uv.index == index && uv.is_local == is_local {
                proof {
                    assert(ups.take(i + 1) =~= ups.take(i + 1));
                    lemma_find_upvalue_prefix(ups, i + 1, index, is_local);
                }
                return (i % 256) as u8;
            }
            i = i + 1;
        }
        proof {
            assert(ups.take(n as int) =~= ups);
        }
        let slot = (n % 256) as u8;
        self.frames[frame_ix].upvalues.push(CompilerUpvalue { index, is_local });
        proof {
            assert forall|k: int| 0 <= k < self.frames@.len() implies frame_wf(#[trigger] self.frames@[k], self.bytes()) by {
                if k != frame_ix {
                    assert(self.frames@[k] == old(self).frames@[k]);
                } else {
                    assert(self.frames@[k].locals == old(self).frames@[k].locals);
                }
            }
        }
        slot
    }

    /// Resolves the previous token as a variable captured by frame `frame_ix` from an
    /// enclosing function: a local of the enclosing frame (marked captured), or a
    /// capture of the enclosing frame, recorded in each frame on the way.
    fn resolve_upvalue(&mut self, frame_ix: usize) -> (r: (bool, u8))
        requires
            old(self).wf(),
            frame_ix < old(self).frames@.len(),
        ensures
            final(self).wf(),
            Compiler::keeps_code(*old(self), *final(self)),
            !r.0 ==> r.1 == 0,
            frame_ix == 0 ==> r == (false, 0u8) && *final(self) == *old(self),
            r.0 == declared_outside(
                old(self).frames@,
                old(self).bytes(),
                lexeme_of(old(self).bytes(), old(self).parser.previous_token),
                frame_ix as int,
            ),
        decreases frame_ix,
    {
        if frame_ix == 0 {
            return (false, 0);
        }
        let (found, local_slot) = self.resolve_local(frame_ix - 1);
        if found {
            let slot = local_slot as usize;
            if slot < self.frames[frame_ix - 1].locals.len() {
                let mut local = self.frames[frame_ix - 1].locals[slot];
                local.is_captured = true;
                self.frames[frame_ix - 1].locals.set(slot, local);
                proof {
                    assert forall|k: int| 0 <= k < self.frames@.len() implies frame_wf(#[trigger] self.frames@[k], self.bytes()) by {
                        if k != frame_ix - 1 {
                            assert(self.frames@[k] == old(self).frames@[k]);
                        } else {
                            let ls = self.frames@[k].locals@;
                            assert forall|j: int| 0 <= j < ls.len() implies token_in(self.bytes(), #[trigger] ls[j].token) by {
                                assert(ls[j].token == old(self).frames@[k].locals@[j].token);
                            }
                        }
                    }
                }
            }
            let idx = self.add_upvalue(frame_ix, local_slot, true);
            return (true, idx);
        }
        let (found, upvalue_slot) = self.resolve_upvalue(frame_ix - 1);
        proof {
            let name = lexeme_of(old(self).bytes(), old(self).parser.previous_token);
            let fs = old(self).frames@;
            let n = frame_ix as int;
            assert(find_local(fs[n - 1].locals@, old(self).bytes(), name, fs[n - 1].locals@.len() as int) is None);
            if declared_outside(fs, old(self).bytes(), name, n) {
                let j = choose|j: int| 0 <= j < n && (find_local(#[trigger] fs[j].locals@, old(self).bytes(), name, fs[j].locals@.len() as int) is Some);
                assert(j < n - 1);
                assert(declared_outside(fs, old(self).bytes(), name, n - 1));
            }
        }
        if found {
            let idx = self.add_upvalue(frame_ix, upvalue_slot, false);
            return (true, idx);
        }
        (false, 0)
    }

    /// Adds the previous token's lexeme, interned as a string, to the constant pool.
    fn identifier_constant(&mut self, vm: &mut Vm) -> (idx: u8)
        requires
            old(self).wf(),
        ensures
            final(self).wf(),
            ({
                let text = decode_utf8(lexeme_of(old(self).bytes(), old(self).parser.previous_token));
                let (v, r) = intern_spec(old(vm)@, text);
                &&& final(vm)@ == v
                &&& Compiler::makes_constant(*old(self), *final(self), Value::Object(r))
                &&& idx == constant_index(old(self).chunk_view().constants, Value::Object(r))
            }),
    {
        let token = self.parser.previous_token;
        let name = self.parser.scanner.get_lexeme(token);
        proof {
            encode_utf8_decode_utf8(name@);
        }
        let r = vm.allocate_string(name);
        self.add_constant(Value::Object(r))
    }

    /// Declares a local named by `token` in the current scope, unless a local of the
    /// current scope already has that name, which is reported.
    fn declare_variable_late(&mut self, token: Token)
        requires
            old(self).wf(),
            token_in(old(self).bytes(), token),
        ensures
            final(self).wf(),
            ({
                let f = old(self).cur();
                let name = lexeme_of(old(self).bytes(), token);
                if declared_in_scope(f.locals@, old(self).bytes(), name, f.scope_depth) {
                    &&& final(self).frames == old(self).frames
                    &&& final(self).parser@ == report(old(self).parser@, token, "Already a variable with this name"@)
                } else {
                    &&& final(self).parser == old(self).parser
                    &&& final(self).frames@ == old(self).frames@.update(
                        old(self).frames@.len() - 1,
                        FunctionCompiler {
                            locals: final(self).cur().locals,
                            ..f
                        },
                    )
                    &&& final(self).cur().locals@ == f.locals@.push(
                        Local { token, depth: f.scope_depth, is_initialized: false, is_captured: false },
                    )
                }
            }),
            final(self).numbers == old(self).numbers,
            final(self).parser.scanner == old(self).parser.scanner,
            final(self).parser.current_token == old(self).parser.current_token,
            final(self).parser.previous_token == old(self).parser.previous_token,
    {
        let last = self.frames.len() - 1;
        let depth = self.frames[last].scope_depth;
        let len = self.frames[last].locals.len();
        let ghost ls = self.cur().locals@;
        let ghost name = lexeme_of(self.bytes(), token);
        let mut i = len;
        proof {
            assert(ls.take(len as int) =~= ls);
        }
        while i > 0 && self.frames[last].locals[i - 1].depth >= depth
            invariant
                self == old(self),
                self.wf(),
                last == self.frames@.len() - 1,
                ls == self.cur().locals@,
                depth == self.cur().scope_depth,
                name == lexeme_of(self.bytes(), token),
                token_in(self.bytes(), token),
                len == ls.len(),
                i <= len,
                declared_in_scope(ls, self.bytes(), name, depth) == declared_in_scope(ls.take(i as int), self.bytes(), name, depth),
            decreases i,
        {
            let local_token = self.frames[last].locals[i - 1].token;
            proof {
                assert(frame_wf(self.cur(), self.bytes()));
                assert(token_in(self.bytes(), ls[i - 1].token));
                assert(ls.take(i as int).drop_last() =~= ls.take(i - 1));
                assert(ls.take(i as int).last() == ls[i - 1]);
            }
            if self.same_identifier(token, local_token) {
                self.error_at(token, "Already a variable with this name");
                return;
            }
            i = i - 1;
        }
        proof {
            if i > 0 {
                assert(ls.take(i as int).last() == ls[i - 1]);
            } else {
                assert(ls.take(0) =~= Seq::<Local>::empty());
            }
        }
        self.frames[last].locals.push(Local { token, depth, is_initialized: false, is_captured: false });
        proof {
            assert forall|k: int| 0 <= k < self.frames@.len() implies frame_wf(#[trigger] self.frames@[k], self.bytes()) by {
                if k != last {
                    assert(self.frames@[k] == old(self).frames@[k]);
                } else {
                    let nl = self.cur().locals@;
                    assert forall|j: int| 0 <= j < nl.len() implies token_in(self.bytes(), #[trigger] nl[j].token) by {
                        if j < ls.len() {
                            assert(nl[j] == ls[j]);
                        }
                    }
                }
            }
        }
    }

    /// Marks the newest local initialized; nothing at the top level.
    fn mark_initialized(&mut self)
        requires
            old(self).wf(),
        ensures
            final(self).wf(),
            final(self).parser == old(self).parser,
            final(self).numbers == old(self).numbers,
            old(self).cur().scope_depth == 0 ==> final(self).frames == old(self).frames,
            old(self).cur().scope_depth != 0 ==> final(self).frames@ == old(self).frames@.update(
                old(self).frames@.len() - 1,
                FunctionCompiler { locals: final(self).cur().locals, ..old(self).cur() },
            ) && final(self).cur().locals@ == old(self).cur().locals@.update(
                old(self).cur().locals@.len() - 1,
                Local { is_initialized: true, ..old(self).cur().locals@.last() },
            ),
    {
        let last = self.frames.len() - 1;
        if self.frames[last].scope_depth == 0 {
            return;
        }
        let n = self.frames[last].locals.len();
        let mut local = self.frames[last].locals[n - 1];
        local.is_initialized = true;
        self.frames[last].locals.set(n - 1, local);
        proof {
            assert forall|k: int| 0 <= k < self.frames@.len() implies frame_wf(#[trigger] self.frames@[k], self.bytes()) by {
                if k != last {
                    assert(self.frames@[k] == old(self).frames@[k]);
                } else {
                    let nl = self.cur().locals@;
                    assert forall|j: int| 0 <= j < nl.len() implies token_in(self.bytes(), #[trigger] nl[j].token) by {
                        assert(nl[j].token == old(self).cur().locals@[j].token);
                    }
                    assert(nl[0].depth == old(self).cur().locals@[0].depth);
                }
            }
        }
    }

    /// Emits the definition of a global variable; nothing inside a scope.
    fn define_variable(&mut self, global: u8)
        requires
            old(self).wf(),
        ensures
            final(self).wf(),
            old(self).cur().scope_depth > 0 ==> *final(self) == *old(self),
            old(self).cur().scope_depth == 0 ==> Compiler::emits(
                *old(self),
                *final(self),
                seq![op_byte(OpCode::OpDefineGlobal), global],
            ),
    {
        if self.frames[self.frames.len() - 1].scope_depth > 0 {
            return;
        }
        let op = OpCode::OpDefineGlobal.to_byte();
        self.emit_bytes(op, global);
    }
}

/// Counting the locals deeper than `d` from the top stops at one that is not.
pub proof fn lemma_deeper_stop(s: Seq<Local>, d: usize)
    ensures
        deeper_locals(s, d) < s.len() ==> s[s.len() - deeper_locals(s, d) - 1].depth <= d,
    decreases s.len(),
{
    if s.len() > 0 && s.last().depth > d {
        lemma_deeper_stop(s.drop_last(), d);
        let k = deeper_locals(s.drop_last(), d);
        if k < s.drop_last().len() {
            assert(s.drop_last()[s.drop_last().len() - k - 1] == s[s.len() - deeper_locals(s, d) - 1]);
        }
    }
}

/// Finding a local among the first `hi` does not look past them.
pub proof fn lemma_find_local_push(ls: Seq<Local>, l: Local, bytes: Seq<u8>, name: Seq<u8>, hi: int)
    requires
        hi <= ls.len(),
    ensures
        find_local(ls.push(l), bytes, name, hi) == find_local(ls, bytes, name, hi),
    decreases hi,
{
    if hi > 0 {
        assert(ls.push(l)[hi - 1] == ls[hi - 1]);
        lemma_find_local_push(ls, l, bytes, name, hi - 1);
    }
}

/// A prefix that holds a capture holds its first occurrence.
pub proof fn lemma_find_upvalue_prefix(s: Seq<CompilerUpvalue>, n: int, index: u8, is_local: bool)
    requires
        0 < n <= s.len(),
        find_upvalue(s.take(n - 1), index, is_local) is None,
        s[n - 1] == (CompilerUpvalue { index, is_local }),
    ensures
        find_upvalue(s, index, is_local) == Some(n - 1),
    decreases s.len(),
{
    if n == s.len() {
        assert(s.take(n - 1) =~= s.drop_last());
    } else {
        assert(s.drop_last().take(n - 1) =~= s.take(n - 1));
        lemma_find_upvalue_prefix(s.drop_last(), n, index, is_local);
    }
}
} // verus!
