use vstd::prelude::*;
use crate::chunk::{OpCode, op_byte};
use crate::scanner::token_in;
use crate::token::TokenType;
use crate::laws::law_constant_shared;
use crate::scanner::lexeme_of;
use crate::value::{ObjData, ObjectView, Value};
use crate::vm::Vm;
use vstd::utf8::{decode_utf8, encode_utf8_decode_utf8};
use super::{Compiler, deeper_locals, discard_code, find_local, lemma_find_local_push, lemma_patched_all_keeps, named};
use super::parser::{ParserView, advance_spec, lemma_fetch_progress};
use super::frame::frame_wf;
use super::expression::ends_with;
use super::frame::{FunctionCompiler, Local};
use super::growth::{
    frame_kept, grows, keeps_locals, jump_grows, lemma_append_grows, lemma_close_loop, lemma_grows_refl, lemma_grows_trans,
    lemma_locals_grows, lemma_nested_cur, lemma_nested_grows, lemma_opens_loop_grows, lemma_parse_grows,
    lemma_patch_grows, lemma_patch_opens, lemma_scope_grows, lemma_unnest, nested_in, opens_loop,
};
use crate::chunk::Chunk;
use crate::function::{FunctionObject, FunctionType};

verus! {

/// The code of a `while` loop that starts at `start`: it ends with a jump back to
/// `start` and a pop, and holds, before the body, a jump out when the condition is false
/// that lands on that final pop.
pub open spec fn while_code(start: int, c: Seq<u8>) -> bool {
    let n = c.len() as int;
    let back = (n - 1 - start) % 65536;
    &&& n >= start + 8
    &&& c[n - 4] == op_byte(OpCode::OpLoop)
    &&& c[n - 3] == (back / 256) as u8
    &&& c[n - 2] == (back % 256) as u8
    &&& c[n - 1] == op_byte(OpCode::OpPop)
    &&& exists|e: int| {
        let out = (n - 1 - e - 2) % 65536;
        &&& start < e
        &&& e + 3 <= n - 4
        &&& #[trigger] c[e - 1] == op_byte(OpCode::OpJumpIfFalse)
        &&& c[e] == (out / 256) as u8
        &&& c[e + 1] == (out % 256) as u8
        &&& c[e + 2] == op_byte(OpCode::OpPop)
    }
}

/// Whether the source at `c`'s current token declares a local that its initializer
/// reads: inside a scope, `name = name` follows, with no initialized local called
/// `name` in the function yet.
pub open spec fn reads_own_initializer(c: Compiler) -> bool {
    let p1 = advance_spec(c.parser@);
    let p2 = advance_spec(p1);
    let x = c.parser.current_token;
    let ls = c.cur().locals@;
    &&& c.cur().scope_depth > 0
    &&& x.token_type == TokenType::Identifier
    &&& p1.current.token_type == TokenType::Equal
    &&& p2.current.token_type == TokenType::Identifier
    &&& lexeme_of(c.bytes(), p2.current) == lexeme_of(c.bytes(), x)
    &&& find_local(ls, c.bytes(), lexeme_of(c.bytes(), x), ls.len() as int) is None
}

/// The jumps of an `if` statement in code `c` of length `n`: a jump at `e1 - 1` when
/// the condition is false and a pop, then (after the then-branch) a jump at `e2 - 1` to
/// `n`, and a pop at `e2 + 2`, where the false condition lands, before the else-branch.
pub open spec fn if_jumps(c: Seq<u8>, start: int, e1: int, e2: int) -> bool {
    let n = c.len() as int;
    let t = (e2 - e1) % 65536;
    let o = (n - e2 - 2) % 65536;
    &&& start < e1
    &&& e1 + 3 <= e2 - 1
    &&& e2 + 3 <= n
    &&& c[e1 - 1] == op_byte(OpCode::OpJumpIfFalse)
    &&& c[e1] == (t / 256) as u8
    &&& c[e1 + 1] == (t % 256) as u8
    &&& c[e1 + 2] == op_byte(OpCode::OpPop)
    &&& c[e2 - 1] == op_byte(OpCode::OpJump)
    &&& c[e2] == (o / 256) as u8
    &&& c[e2 + 1] == (o % 256) as u8
    &&& c[e2 + 2] == op_byte(OpCode::OpPop)
}

/// The code of an `if` statement that starts at `start` and ends the code: its jumps
/// lie after `start`, as `if_jumps` says.
pub open spec fn if_code(start: int, c: Seq<u8>) -> bool {
    exists|e1: int, e2: int| #[trigger] if_jumps(c, start, e1, e2)
}

/// The constant at index `k` of the pool `cs` names a function object of `heap` called
/// `name` whose code ends with a return of `nil`, and `emitted` bytes load it: the
/// instruction and a pair of bytes for each variable it captures.
pub open spec fn loads_new_function(k: u8, cs: Seq<Value>, heap: Seq<ObjectView>, name: Seq<char>, emitted: int) -> bool {
    &&& (k as int) < cs.len()
    &&& cs[k as int] matches Value::Object(r) && r < heap.len() && (heap[r as int].data matches ObjData::Function(f)
        && f.name == name && ends_with(f.chunk.code, seq![op_byte(OpCode::OpNil), op_byte(OpCode::OpReturn)])
        && emitted == 2 + 2 * f.upvalue_count)
}

impl Compiler {
    /// Compiles a declaration (`var`, `fun` or a statement), then, after an error,
    /// skips to the next statement boundary.
    pub(super) fn declaration(&mut self, vm: &mut Vm)
        requires
            old(self).wf(),
        ensures
            final(self).wf(),
            grows(*old(self), *final(self)),
            final(self).cur().locals@.len() <= old(self).cur().locals@.len() + 1,
            old(self).parser.current_token.token_type != TokenType::EOF ==> final(self).parser.progress()
                < old(self).parser.progress(),
        decreases old(self).parser.progress(), 4nat,
    {
        let ghost s0 = *self;
        if self.match_token(TokenType::Var) {
            let ghost s1 = *self;
            self.var_declaration(vm);
            proof {
                lemma_grows_trans(s0, s1, *self);
            }
        } else if self.match_token(TokenType::Fun) {
            let ghost s1 = *self;
            self.fun_declaration(vm);
            proof {
                lemma_grows_trans(s0, s1, *self);
            }
        } else {
            self.statement(vm);
        }
        if self.parser.panic_mode {
            let ghost s2 = *self;
            self.parser.synchronize();
            proof {
                lemma_parse_grows(s0, s2, *self);
            }
        }
    }

    /// Compiles a statement.
    pub(super) fn statement(&mut self, vm: &mut Vm)
        requires
            old(self).wf(),
        ensures
            final(self).wf(),
            keeps_locals(*old(self), *final(self)),
            old(self).parser.current_token.token_type != TokenType::EOF ==> final(self).parser.progress()
                < old(self).parser.progress(),
        decreases old(self).parser.progress(), 3nat,
    {
        let ghost s0 = *self;
        if self.match_token(TokenType::Print) {
            let ghost s1 = *self;
            self.print_statement(vm);
            proof {
                lemma_grows_trans(s0, s1, *self);
            }
        } else if self.match_token(TokenType::Break) {
            let ghost s1 = *self;
            self.break_statement();
            proof {
                lemma_grows_trans(s0, s1, *self);
            }
        } else if self.match_token(TokenType::Continue) {
            let ghost s1 = *self;
            self.continue_statement();
            proof {
                lemma_grows_trans(s0, s1, *self);
            }
        } else if self.match_token(TokenType::For) {
            let ghost s1 = *self;
            self.for_statement(vm);
            proof {
                lemma_grows_trans(s0, s1, *self);
            }
        } else if self.match_token(TokenType::If) {
            let ghost s1 = *self;
            self.if_statement(vm);
            proof {
                lemma_grows_trans(s0, s1, *self);
            }
        } else if self.match_token(TokenType::While) {
            let ghost s1 = *self;
            self.while_statement(vm);
            proof {
                lemma_grows_trans(s0, s1, *self);
            }
        } else if self.match_token(TokenType::Return) {
            let ghost s1 = *self;
            self.return_statement(vm);
            proof {
                lemma_grows_trans(s0, s1, *self);
            }
        } else if self.match_token(TokenType::LeftBrace) {
            let ghost s1 = *self;
            self.begin_scope();
            let ghost s2 = *self;
            self.block(vm);
            let ghost s3 = *self;
            self.end_scope(false);
            proof {
                assert(self.code().subrange(0, s3.code().len() as int) =~= s3.code());
                lemma_scope_grows(s1, s2, s3, *self);
                lemma_grows_trans(s0, s1, *self);
            }
        } else {
            self.expression_statement(vm);
        }
    }

    /// Compiles the declarations up to a closing brace, and the brace.
    pub(super) fn block(&mut self, vm: &mut Vm)
        requires
            old(self).wf(),
        ensures
            final(self).wf(),
            grows(*old(self), *final(self)),
        decreases old(self).parser.progress(), 5nat,
    {
        let ghost s0 = *self;
        proof {
            lemma_grows_refl(s0);
        }
        while !self.parser.check(TokenType::RightBrace) && !self.parser.check(TokenType::EOF)
            invariant
                self.wf(),
                grows(s0, *self),
                s0.frames@.len() >= 1,
                self.parser.progress() <= old(self).parser.progress(),
            decreases self.parser.progress(),
        {
            let ghost s1 = *self;
            self.declaration(vm);
            proof {
                lemma_grows_trans(s0, s1, *self);
            }
        }
        let ghost s2 = *self;
        self.consume(TokenType::RightBrace, "Expected '}' after block");
        proof {
            lemma_grows_trans(s0, s2, *self);
        }
    }

    /// Compiles a block of a `switch` in a scope of its own: its declarations, then
    /// `yield value;` or nothing, leaving the value (or `nil`) as the block's result.
    pub(super) fn case_block(&mut self, vm: &mut Vm)
        requires
            old(self).wf(),
            old(self).cur().scope_depth < old(self).consumed(),
        ensures
            final(self).wf(),
            keeps_locals(*old(self), *final(self)),
        decreases old(self).parser.progress(), 5nat,
    {
        let ghost s0 = *self;
        self.begin_scope();
        let ghost s1 = *self;
        proof {
            lemma_grows_refl(s1);
        }
        self.consume(TokenType::LeftBrace, "Expected '{' after case.");
        while !self.parser.check(TokenType::Yield) && !self.parser.check(TokenType::EOF) && !self.parser.check(
            TokenType::RightBrace,
        )
            invariant
                self.wf(),
                grows(s1, *self),
                s1.frames@.len() >= 1,
                self.parser.progress() <= old(self).parser.progress(),
            decreases self.parser.progress(),
        {
            let ghost t = *self;
            self.declaration(vm);
            proof {
                lemma_grows_trans(s1, t, *self);
            }
        }
        if self.parser.check(TokenType::Yield) {
            let ghost t1 = *self;
            self.advance();
            proof {
                lemma_grows_trans(s1, t1, *self);
            }
            let ghost t2 = *self;
            self.expression(vm);
            proof {
                lemma_grows_trans(s1, t2, *self);
            }
            let ghost t3 = *self;
            self.consume(TokenType::Semicolon, "Expected ';' after yield expression.");
            proof {
                lemma_grows_trans(s1, t3, *self);
            }
        } else {
            let ghost t1 = *self;
            self.emit_byte(OpCode::OpNil.to_byte());
            proof {
                assert(self.code().subrange(0, t1.code().len() as int) =~= t1.code());
                lemma_append_grows(s1, t1, *self);
            }
        }
        let ghost s2 = *self;
        self.consume(TokenType::RightBrace, "Expected '}'.");
        proof {
            lemma_grows_trans(s1, s2, *self);
        }
        let ghost s3 = *self;
        self.end_scope(true);
        proof {
            assert(self.code().subrange(0, s3.code().len() as int) =~= s3.code());
            lemma_scope_grows(s0, s1, s3, *self);
        }
    }

    /// Compiles `print value;`.
    pub(super) fn print_statement(&mut self, vm: &mut Vm)
        requires
            old(self).wf(),
        ensures
            final(self).wf(),
            keeps_locals(*old(self), *final(self)),
            ends_with(final(self).code(), seq![op_byte(OpCode::OpPrint)]),
        decreases old(self).parser.progress(), 2nat,
    {
        let ghost s0 = *self;
        self.expression(vm);
        let ghost s1 = *self;
        self.consume(TokenType::Semicolon, "Expected ';' after value.");
        proof {
            lemma_grows_trans(s0, s1, *self);
        }
        let ghost s2 = *self;
        self.emit_byte(OpCode::OpPrint.to_byte());
        proof {
            assert(self.code().subrange(0, s2.code().len() as int) =~= s2.code());
            assert(self.code().subrange(self.code().len() - 1, self.code().len() as int) =~= seq![op_byte(OpCode::OpPrint)]);
            lemma_append_grows(s0, s2, *self);
        }
    }

    /// Compiles an expression used as a statement: its value is discarded.
    pub(super) fn expression_statement(&mut self, vm: &mut Vm)
        requires
            old(self).wf(),
        ensures
            final(self).wf(),
            keeps_locals(*old(self), *final(self)),
            ends_with(final(self).code(), seq![op_byte(OpCode::OpPop)]),
            old(self).parser.current_token.token_type != TokenType::EOF ==> final(self).parser.progress()
                < old(self).parser.progress(),
        decreases old(self).parser.progress(), 2nat,
    {
        let ghost s0 = *self;
        self.expression(vm);
        let ghost s1 = *self;
        self.consume(TokenType::Semicolon, "Expected ';' after expression.");
        proof {
            lemma_grows_trans(s0, s1, *self);
        }
        let ghost s2 = *self;
        self.emit_pop();
        proof {
            assert(self.code().subrange(0, s2.code().len() as int) =~= s2.code());
            assert(self.code().subrange(self.code().len() - 1, self.code().len() as int) =~= seq![op_byte(OpCode::OpPop)]);
            lemma_append_grows(s0, s2, *self);
        }
    }

    /// Compiles `return;` or `return value;`. At the top level of the script it is
    /// reported, and compiled all the same.
    pub(super) fn return_statement(&mut self, vm: &mut Vm)
        requires
            old(self).wf(),
        ensures
            final(self).wf(),
            keeps_locals(*old(self), *final(self)),
            ends_with(final(self).code(), seq![op_byte(OpCode::OpReturn)]),
            old(self).parser.current_token.token_type == TokenType::Semicolon ==> final(self).code() == old(
                self,
            ).code() + seq![op_byte(OpCode::OpNil), op_byte(OpCode::OpReturn)],
        decreases old(self).parser.progress(), 2nat,
    {
        let ghost s0 = *self;
        proof {
            lemma_grows_refl(s0);
        }
        if self.frames[self.frames.len() - 1].function_type == FunctionType::TypeScript {
            let prev = self.parser.previous_token;
            self.error_at(prev, "Can't use return outside a function");
            proof {
                lemma_parse_grows(s0, s0, *self);
            }
        }
        let ghost s1 = *self;
        if self.match_token(TokenType::Semicolon) {
            proof {
                lemma_grows_trans(s0, s1, *self);
            }
            let ghost s2 = *self;
            self.emit_byte(OpCode::OpNil.to_byte());
            self.emit_return();
            proof {
                assert(self.code() =~= s0.code() + seq![op_byte(OpCode::OpNil), op_byte(OpCode::OpReturn)]);
                assert(self.code().subrange(0, s2.code().len() as int) =~= s2.code());
                lemma_append_grows(s0, s2, *self);
            }
        } else {
            self.expression(vm);
            proof {
                lemma_grows_trans(s0, s1, *self);
            }
            let ghost s2 = *self;
            self.consume(TokenType::Semicolon, "Expect ';' after return value.");
            proof {
                lemma_grows_trans(s0, s2, *self);
            }
            let ghost s3 = *self;
            self.emit_return();
            proof {
                assert(self.code().subrange(0, s3.code().len() as int) =~= s3.code());
                lemma_append_grows(s0, s3, *self);
            }
        }
        proof {
            assert(self.code().subrange(self.code().len() - 1, self.code().len() as int) =~= seq![op_byte(OpCode::OpReturn)]);
        }
    }

    /// Compiles `var name = value;` (or `var name;`, which holds `nil`): a global at the
    /// top level, else a local of the current scope, declared before its initializer
    /// (which cannot read it) and usable once its value is computed.
    #[verifier::rlimit(60)]
    pub(super) fn var_declaration(&mut self, vm: &mut Vm)
        requires
            old(self).wf(),
        ensures
            final(self).wf(),
            grows(*old(self), *final(self)),
            final(self).cur().locals@.len() <= old(self).cur().locals@.len() + 1,
            reads_own_initializer(*old(self)) ==> final(self).parser.had_error,
            old(self).cur().scope_depth == 0 ==> final(self).code().len() >= old(self).code().len() + 2
                && final(self).code()[final(self).code().len() - 2] == op_byte(OpCode::OpDefineGlobal),
        decreases old(self).parser.progress(), 2nat,
    {
        let ghost s0 = *self;
        self.consume(TokenType::Identifier, "Expected variable name");
        let token = self.parser.previous_token;
        let last = self.frames.len() - 1;
        let mut constant: u8 = 0;
        if self.frames[last].scope_depth == 0 {
            let ghost s1 = *self;
            constant = self.identifier_constant(vm);
            proof {
                assert(self.code().subrange(0, s1.code().len() as int) =~= s1.code());
                lemma_append_grows(s0, s1, *self);
            }
        } else {
            let ghost s1 = *self;
            proof {
                assert(token_in(self.bytes(), token));
            }
            self.declare_variable_late(token);
            proof {
                lemma_locals_grows(s0, s1, *self);
            }
            proof {
                if reads_own_initializer(s0) && !self.parser.had_error {
                    let ls = s0.cur().locals@;
                    let x = s0.parser.current_token;
                    let name = lexeme_of(s0.bytes(), x);
                    let nl = self.cur().locals@;
                    let l = Local { token, depth: s0.cur().scope_depth, is_initialized: false, is_captured: false };
                    lemma_fetch_progress(ParserView { previous: s0.parser@.current, ..s0.parser@ });
                    assert(token == x);
                    assert(nl == ls.push(l));
                    lemma_find_local_push(ls, l, s0.bytes(), name, ls.len() as int);
                    assert(named(s0.bytes(), nl[ls.len() as int], name));
                }
            }
        }
        let ghost s2 = *self;
        if self.match_token(TokenType::Equal) {
            proof {
                lemma_grows_trans(s0, s2, *self);
            }
            let ghost s3 = *self;
            self.expression(vm);
            proof {
                lemma_grows_trans(s0, s3, *self);
            }
        } else {
            self.emit_byte(OpCode::OpNil.to_byte());
            proof {
                assert(self.code().subrange(0, s2.code().len() as int) =~= s2.code());
                lemma_append_grows(s0, s2, *self);
            }
        }
        let ghost s4 = *self;
        self.consume(TokenType::Semicolon, "Expected ';' after variable declaration.");
        proof {
            lemma_grows_trans(s0, s4, *self);
        }
        if self.frames[last].scope_depth > 0 {
            let ghost s6 = *self;
            self.mark_initialized();
            proof {
                lemma_locals_grows(s0, s6, *self);
            }
            return;
        }
        let ghost s7 = *self;
        self.emit_bytes(OpCode::OpDefineGlobal.to_byte(), constant);
        proof {
            assert(self.code().subrange(0, s7.code().len() as int) =~= s7.code());
            lemma_append_grows(s0, s7, *self);
            assert(self.code() =~= s7.code() + seq![op_byte(OpCode::OpDefineGlobal), constant]);
        }
    }

    /// Compiles `fun name(params) { body }`: the name is usable inside the body.
    pub(super) fn fun_declaration(&mut self, vm: &mut Vm)
        requires
            old(self).wf(),
            old(self).cur().scope_depth < old(self).consumed(),
        ensures
            final(self).wf(),
            grows(*old(self), *final(self)),
            final(self).cur().locals@.len() <= old(self).cur().locals@.len() + 1,
        decreases old(self).parser.progress(), 8nat,
    {
        let ghost s0 = *self;
        let name = self.parse_variable("Expect function name.", vm);
        let ghost s1 = *self;
        self.mark_initialized();
        proof {
            lemma_locals_grows(s0, s1, *self);
        }
        let ghost s2 = *self;
        self.function_statement(FunctionType::TypeFunction, vm);
        proof {
            lemma_grows_trans(s0, s2, *self);
        }
        let ghost s3 = *self;
        self.define_variable(name);
        proof {
            assert(self.code().subrange(0, s3.code().len() as int) =~= s3.code());
            lemma_append_grows(s0, s3, *self);
        }
    }

    /// Compiles a function's parameters and body in a frame of its own, named by the
    /// previous token, then loads a closure over it, followed by a pair of bytes for each
    /// variable it captures (whether it is a local of this function, and its slot).
    /// Once a compile error has been reported (in the body or before it) the function is
    /// not finished and no closure is loaded.
    #[verifier::rlimit(60)]
    pub(super) fn function_statement(&mut self, function_type: FunctionType, vm: &mut Vm)
        requires
            old(self).wf(),
            old(self).cur().scope_depth < old(self).consumed(),
        ensures
            final(self).wf(),
            keeps_locals(*old(self), *final(self)),
            final(self).code() == old(self).code() && final(self).parser.had_error || final(self).code().len()
                >= old(self).code().len() + 2 && final(self).code()[old(self).code().len() as int] == op_byte(
                OpCode::OpClosure,
            ),
            !final(self).parser.had_error ==> final(self).code().len() >= old(self).code().len() + 2
                && final(self).code()[old(self).code().len() as int] == op_byte(OpCode::OpClosure),
            !final(self).parser.had_error ==> loads_new_function(
                final(self).code()[old(self).code().len() as int + 1],
                final(self).chunk_view().constants,
                final(vm)@.heap,
                decode_utf8(lexeme_of(old(self).bytes(), old(self).parser.previous_token)),
                final(self).code().len() - old(self).code().len(),
            ),
        decreases old(self).parser.progress(), 7nat,
    {
        let ghost s0 = *self;
        let token = self.parser.previous_token;
        let lexeme = self.parser.scanner.get_lexeme(token);
        let ghost fname = decode_utf8(lexeme_of(s0.bytes(), token));
        proof {
            encode_utf8_decode_utf8(lexeme@);
        }
        let function = FunctionObject::new(Chunk::new(), 0, lexeme);
        let frame = FunctionCompiler::new(function, function_type);
        self.frames.push(frame);
        proof {
            assert(token_in(self.bytes(), super::frame::slot_zero().token));
            assert forall|i: int| 0 <= i < self.frames@.len() implies frame_wf(#[trigger] self.frames@[i], self.bytes()) by {
                if i < s0.frames@.len() {
                    assert(self.frames@[i] == s0.frames@[i]);
                }
            }
            assert forall|i: int| 0 <= i < s0.frames@.len() implies frame_kept(#[trigger] s0.frames@[i], self.frames@[i]) by {
                assert(self.frames@[i] == s0.frames@[i]);
            }
            assert(nested_in(s0, *self));
            assert(self.cur().function.name@ == fname);
        }
        let ghost s1 = *self;
        self.begin_scope();
        proof {
            lemma_nested_cur(s0, s1, *self);
        }
        let ghost s2 = *self;
        self.consume(TokenType::LeftParen, "Expect '(' after function name.");
        proof {
            lemma_nested_grows(s0, s2, *self);
        }
        if !self.parser.check(TokenType::RightParen) {
            loop
                invariant
                    self.wf(),
                    nested_in(s0, *self),
                    self.cur().function.name@ == fname,
                decreases self.parser.progress(),
            {
                let last = self.frames.len() - 1;
                let ghost t0 = *self;
                self.frames[last].function.arity = self.frames[last].function.arity.wrapping_add(1);
                proof {
                    assert forall|i: int| 0 <= i < self.frames@.len() implies frame_wf(#[trigger] self.frames@[i], self.bytes()) by {
                        if i != last {
                            assert(self.frames@[i] == t0.frames@[i]);
                        }
                    }
                    lemma_nested_cur(s0, t0, *self);
                }
                let ghost t1 = *self;
                let param = self.parse_variable("Expect parameter name.", vm);
                proof {
                    lemma_nested_grows(s0, t1, *self);
                }
                let ghost t2 = *self;
                self.define_variable(param);
                proof {
                    lemma_grows_refl(t2);
                    assert(self.code().subrange(0, t2.code().len() as int) =~= t2.code());
                    lemma_append_grows(t2, t2, *self);
                    lemma_nested_grows(s0, t2, *self);
                }
                let ghost t3 = *self;
                self.mark_initialized();
                proof {
                    lemma_nested_cur(s0, t3, *self);
                }
                let ghost t4 = *self;
                if !self.match_token(TokenType::Comma) {
                    break;
                }
                proof {
                    lemma_nested_grows(s0, t4, *self);
                }
            }
        }
        let ghost s3 = *self;
        self.consume(TokenType::RightParen, "Expect ')' after parameters.");
        self.consume(TokenType::LeftBrace, "Expect '{' before function body.");
        proof {
            lemma_nested_cur(s0, s3, *self);
        }
        let ghost s4 = *self;
        self.block(vm);
        proof {
            lemma_nested_grows(s0, s4, *self);
        }
        let upvalues = self.frames[self.frames.len() - 1].upvalues.clone();
        let ghost s5 = *self;
        let ghost vm5 = *vm;
        match self.end_compiler(vm) {
            Some(compiled) => {
                let ghost vm6 = *vm;
                proof {
                    assert(s5.cur().function.name@ == fname);
                    assert(vm6@.heap[compiled as int].data matches ObjData::Function(g) && g.name == fname
                        && g.upvalue_count == upvalues@.len()
                        && ends_with(g.chunk.code, seq![op_byte(OpCode::OpNil), op_byte(OpCode::OpReturn)])) by {
                        let c = s5.code() + seq![op_byte(OpCode::OpNil), op_byte(OpCode::OpReturn)];
                        assert(c.subrange(c.len() - 2, c.len() as int) =~= seq![op_byte(OpCode::OpNil), op_byte(OpCode::OpReturn)]);
                    }
                }
                proof {
                    lemma_unnest(s0, s5, *self);
                    assert forall|i: int| 0 <= i < self.frames@.len() implies frame_wf(#[trigger] self.frames@[i], self.bytes()) by {
                        assert(self.frames@[i] == s5.frames@[i]);
                    }
                }
                let ghost s6 = *self;
                proof {
                    assert(frame_kept(s0.cur(), s6.cur()));
                    assert(s6.code() == s0.code());
                }
                proof {
                    assert(frame_wf(s6.cur(), s6.bytes()));
                    law_constant_shared(s6.chunk_view().constants, crate::value::Value::Object(compiled));
                }
                let idx = self.add_constant(crate::value::Value::Object(compiled));
                self.emit_bytes(OpCode::OpClosure.to_byte(), idx);
                proof {
                    assert(self.code().subrange(0, s6.code().len() as int) =~= s6.code());
                    lemma_append_grows(s0, s6, *self);
                }
                let ghost s8 = *self;
                proof {
                    assert(self.code()[s0.code().len() as int + 1] == idx);
                    assert(!s8.parser.had_error ==> loads_new_function(idx, s8.chunk_view().constants, vm@.heap, fname, 2 + 2 * upvalues@.len() as int));
                }
                let mut i: usize = 0;
                while i < upvalues.len()
                    invariant
                        self.wf(),
                        keeps_locals(s0, *self),
                        s0.frames@.len() >= 1,
                        self.code().len() >= s0.code().len() + 2,
                        self.code()[s0.code().len() as int] == op_byte(OpCode::OpClosure),
                        self.code()[s0.code().len() as int + 1] == idx,
                        self.parser == s8.parser,
                        self.chunk_view().constants == s8.chunk_view().constants,
                        vm@ == vm6@,
                        i <= upvalues@.len(),
                        self.code().len() == s8.code().len() + 2 * i,
                        s8.code().len() == s0.code().len() + 2,
                    decreases upvalues@.len() - i,
                {
                    let ghost t = *self;
                    let uv = upvalues[i];
                    self.emit_byte(if uv.is_local { 1 } else { 0 });
                    self.emit_byte(uv.index);
                    proof {
                        assert(self.code().subrange(0, t.code().len() as int) =~= t.code());
                        lemma_append_grows(s0, t, *self);
                    }
                    i = i + 1;
                }
            },
            None => {
                let ghost s6 = *self;
                proof {
                    lemma_grows_refl(s5);
                    assert(s6.code().subrange(0, s5.code().len() as int) =~= s5.code());
                    lemma_append_grows(s5, s5, s6);
                    lemma_nested_grows(s0, s5, s6);
                }
                self.frames.pop();
                proof {
                    lemma_unnest(s0, s6, *self);
                    assert forall|i: int| 0 <= i < self.frames@.len() implies frame_wf(#[trigger] self.frames@[i], self.bytes()) by {
                        assert(self.frames@[i] == s6.frames@[i]);
                    }
                    assert(frame_kept(s0.cur(), self.cur()));
                }
            },
        }
    }

    /// Compiles the initializer clause of a `for`: nothing, a `var` declaration or an
    /// expression statement.
    fn for_initializer(&mut self, vm: &mut Vm)
        requires
            old(self).wf(),
        ensures
            final(self).wf(),
            grows(*old(self), *final(self)),
            old(self).parser.current_token.token_type != TokenType::EOF ==> final(self).parser.progress()
                < old(self).parser.progress(),
        decreases old(self).parser.progress(), 3nat,
    {
        let ghost s0 = *self;
        if self.match_token(TokenType::Semicolon) {
        } else if self.match_token(TokenType::Var) {
            let ghost t = *self;
            self.var_declaration(vm);
            proof {
                lemma_grows_trans(s0, t, *self);
            }
        } else {
            self.expression_statement(vm);
        }
    }

    /// Compiles the condition clause of a `for`, when there is one: the condition and a
    /// jump out of the loop when it is false, whose site is given.
    fn for_condition(&mut self, vm: &mut Vm) -> (r: (bool, usize))
        requires
            old(self).wf(),
        ensures
            final(self).wf(),
            keeps_locals(*old(self), *final(self)),
            r.0 ==> old(self).code().len() <= r.1 && r.1 + 2 <= final(self).code().len(),
        decreases old(self).parser.progress(), 2nat,
    {
        let ghost s0 = *self;
        if self.match_token(TokenType::Semicolon) {
            return (false, 0);
        }
        proof {
            lemma_grows_refl(s0);
        }
        let ghost s1 = *self;
        self.expression(vm);
        proof {
            lemma_grows_trans(s0, s1, *self);
        }
        let ghost s2 = *self;
        self.consume(TokenType::Semicolon, "Expected ';' after the loop condition.");
        proof {
            lemma_grows_trans(s0, s2, *self);
        }
        let ghost s3 = *self;
        let exit_jump = self.emit_jump(OpCode::OpJumpIfFalse);
        self.emit_pop();
        proof {
            assert(self.code().subrange(0, s3.code().len() as int) =~= s3.code());
            lemma_append_grows(s0, s3, *self);
        }
        (true, exit_jump)
    }

    /// Compiles the increment clause of a `for`, when there is one: jumped over on the
    /// way into the body, it runs the increment and loops back to `loop_start`; it then
    /// becomes the target of `continue`. Gives the start of the loop's next pass.
    fn for_increment(&mut self, loop_start: usize, vm: &mut Vm, Ghost(a): Ghost<Compiler>) -> (start: usize)
        requires
            old(self).wf(),
            a.frames@.len() >= 1,
            opens_loop(a, *old(self)),
            loop_start <= old(self).code().len(),
        ensures
            final(self).wf(),
            opens_loop(a, *final(self)),
            start <= final(self).code().len(),
            old(self).code().len() <= final(self).code().len(),
            final(self).parser.progress() <= old(self).parser.progress(),
            old(self).parser.current_token.token_type == TokenType::RightParen ==> start == loop_start
                && final(self).code() == old(self).code() && final(self).parser@ == advance_spec(old(self).parser@),
            old(self).parser.current_token.token_type != TokenType::RightParen ==> ({
                let n = old(self).code().len() as int;
                let c = final(self).code();
                let jump = (c.len() - n - 3) % 65536;
                let back = (c.len() - loop_start) % 65536;
                &&& start == n + 3
                &&& c.len() >= n + 7
                &&& c[n] == op_byte(OpCode::OpJump)
                &&& c[n + 1] == (jump / 256) as u8
                &&& c[n + 2] == (jump % 256) as u8
                &&& c[c.len() - 3] == op_byte(OpCode::OpLoop)
                &&& c[c.len() - 2] == (back / 256) as u8
                &&& c[c.len() - 1] == (back % 256) as u8
                &&& final(self).cur().jumps@.last().1 == start
            }),
        decreases old(self).parser.progress(), 2nat,
    {
        let ghost s0 = *self;
        proof {
            lemma_grows_refl(s0);
        }
        if self.match_token(TokenType::RightParen) {
            proof {
                lemma_opens_loop_grows(a, s0, *self);
            }
            return loop_start;
        }
        let ghost s1 = *self;
        let body_jump = self.emit_jump(OpCode::OpJump);
        let increment_start = self.frames[self.frames.len() - 1].function.chunk.count();
        proof {
            assert(self.code().subrange(0, s1.code().len() as int) =~= s1.code());
            lemma_append_grows(s0, s1, *self);
        }
        let ghost t1 = *self;
        self.expression(vm);
        proof {
            lemma_grows_trans(s0, t1, *self);
        }
        let ghost t2 = *self;
        self.emit_pop();
        proof {
            assert(self.code().subrange(0, t2.code().len() as int) =~= t2.code());
            lemma_append_grows(s0, t2, *self);
        }
        let ghost t3 = *self;
        self.consume(TokenType::RightParen, "Expected ')' after clauses.");
        proof {
            lemma_grows_trans(s0, t3, *self);
        }
        let ghost t4 = *self;
        self.emit_loop(loop_start);
        proof {
            assert(self.code().subrange(0, t4.code().len() as int) =~= t4.code());
            lemma_append_grows(s0, t4, *self);
            lemma_opens_loop_grows(a, s0, *self);
            let n = s0.code().len() as int;
            assert(t1.code()[n] == op_byte(OpCode::OpJump));
            assert(self.code().subrange(0, t1.code().len() as int)[n] == t1.code()[n]);
            assert(self.code()[n] == op_byte(OpCode::OpJump));
        }
        self.set_loop_start(increment_start, Ghost(a));
        let ghost t5 = *self;
        self.patch_jump(body_jump);
        proof {
            assert(self.code().subrange(0, body_jump as int) =~= t5.code().subrange(0, body_jump as int));
            lemma_patch_opens(a, t5, *self, body_jump as int);
            let c = t5.code();
            assert(c.len() >= s0.code().len() + 7);
            assert(self.code()[c.len() - 3] == c[c.len() - 3]);
            assert(self.code()[c.len() - 2] == c[c.len() - 2]);
            assert(self.code()[c.len() - 1] == c[c.len() - 1]);
        }
        increment_start
    }

    /// Compiles `for (init; condition; increment) body` in a scope of its own: a loop
    /// whose `continue` runs the increment.
    #[verifier::rlimit(80)]
    pub(super) fn for_statement(&mut self, vm: &mut Vm)
        requires
            old(self).wf(),
            old(self).cur().scope_depth < old(self).consumed(),
        ensures
            final(self).wf(),
            keeps_locals(*old(self), *final(self)),
            final(self).cur().jumps@ == old(self).cur().jumps@,
            old(self).parser.current_token.token_type != TokenType::EOF ==> final(self).parser.progress()
                < old(self).parser.progress(),
        decreases old(self).parser.progress(), 4nat,
    {
        let ghost s0 = *self;
        self.begin_scope();
        let ghost s1 = *self;
        self.open_loop(0);
        let ghost s2 = *self;
        self.consume(TokenType::LeftParen, "Expected '(' after 'while'.");
        proof {
            lemma_opens_loop_grows(s1, s2, *self);
        }
        let ghost s3 = *self;
        proof {
            assert(s0.parser.current_token.token_type != TokenType::EOF ==> s3.parser.progress()
                < s0.parser.progress() || s3.parser.current_token.token_type != TokenType::EOF);
        }
        self.for_initializer(vm);
        proof {
            lemma_opens_loop_grows(s1, s3, *self);
            assert(s0.parser.current_token.token_type != TokenType::EOF ==> self.parser.progress()
                < s0.parser.progress());
        }
        let loop_start = self.frames[self.frames.len() - 1].function.chunk.count();
        self.set_loop_start(loop_start, Ghost(s1));
        let ghost s4 = *self;
        let (is_conditional, exit_jump) = self.for_condition(vm);
        proof {
            lemma_opens_loop_grows(s1, s4, *self);
        }
        let loop_start = self.for_increment(loop_start, vm, Ghost(s1));
        let ghost s6 = *self;
        self.statement(vm);
        proof {
            lemma_opens_loop_grows(s1, s6, *self);
        }
        let ghost s7 = *self;
        self.emit_loop(loop_start);
        proof {
            lemma_grows_refl(s7);
            assert(self.code().subrange(0, s7.code().len() as int) =~= s7.code());
            lemma_append_grows(s7, s7, *self);
            lemma_opens_loop_grows(s1, s7, *self);
        }
        if is_conditional {
            let ghost t1 = *self;
            self.patch_jump(exit_jump);
            proof {
                assert(self.code().subrange(0, exit_jump as int) =~= t1.code().subrange(0, exit_jump as int));
                lemma_patch_opens(s1, t1, *self, exit_jump as int);
            }
            let ghost t2 = *self;
            self.emit_pop();
            proof {
                lemma_grows_refl(t2);
                assert(self.code().subrange(0, t2.code().len() as int) =~= t2.code());
                lemma_append_grows(t2, t2, *self);
                lemma_opens_loop_grows(s1, t2, *self);
            }
        }
        let ghost s8 = *self;
        let breaks = self.close_loop();
        proof {
            lemma_close_loop(s1, s8, *self);
            assert(self.cur().jumps@ == s0.cur().jumps@);
        }
        self.patch_breaks(&breaks, Ghost(s1));
        let ghost s9 = *self;
        proof {
            assert(s9.cur().jumps@ == s0.cur().jumps@);
        }
        self.end_scope(false);
        proof {
            assert(self.code().subrange(0, s9.code().len() as int) =~= s9.code());
            lemma_scope_grows(s0, s1, s9, *self);
        }
    }

    /// Compiles `while (condition) body`.
    #[verifier::rlimit(100)]
    pub(super) fn while_statement(&mut self, vm: &mut Vm)
        requires
            old(self).wf(),
        ensures
            final(self).wf(),
            keeps_locals(*old(self), *final(self)),
            final(self).cur().jumps@ == old(self).cur().jumps@,
            old(self).parser.current_token.token_type != TokenType::EOF ==> final(self).parser.progress()
                < old(self).parser.progress(),
            while_code(old(self).code().len() as int, final(self).code()),
        decreases old(self).parser.progress(), 4nat,
    {
        let ghost s0 = *self;
        let loop_start = self.frames[self.frames.len() - 1].function.chunk.count();
        self.open_loop(loop_start);
        let ghost s1 = *self;
        proof {
            lemma_grows_refl(s1);
        }
        self.consume(TokenType::LeftParen, "Expected '(' after 'while'.");
        let ghost t1 = *self;
        self.expression(vm);
        proof {
            lemma_grows_trans(s1, t1, *self);
        }
        let ghost t2 = *self;
        self.consume(TokenType::RightParen, "Expected ')' after condition.");
        proof {
            lemma_grows_trans(s1, t2, *self);
        }
        let ghost t3 = *self;
        proof {
            assert(frame_wf(t3.cur(), t3.bytes()));
            assert(t3.cur().jumps@.len() == s1.cur().jumps@.len());
        }
        let exit_jump = self.emit_jump(OpCode::OpJumpIfFalse);
        self.emit_pop();
        proof {
            assert(self.code().subrange(0, t3.code().len() as int) =~= t3.code());
            lemma_append_grows(s1, t3, *self);
        }
        let ghost t4 = *self;
        self.statement(vm);
        proof {
            lemma_grows_trans(s1, t4, *self);
        }
        let ghost t5 = *self;
        proof {
            assert(frame_wf(t5.cur(), t5.bytes()));
        }
        self.emit_loop(loop_start);
        proof {
            assert(self.code().subrange(0, t5.code().len() as int) =~= t5.code());
            lemma_append_grows(s1, t5, *self);
        }
        let ghost t6 = *self;
        self.patch_jump(exit_jump);
        proof {
            assert(self.code().subrange(0, exit_jump as int) =~= t6.code().subrange(0, exit_jump as int));
            lemma_patch_grows(s1, t6, *self, exit_jump as int);
        }
        let ghost t7 = *self;
        self.emit_pop();
        proof {
            assert(self.code().subrange(0, t7.code().len() as int) =~= t7.code());
            lemma_append_grows(s1, t7, *self);
            lemma_opens_loop_grows(s0, s1, *self);
        }
        let ghost s8 = *self;
        let breaks = self.close_loop();
        proof {
            lemma_close_loop(s0, s8, *self);
        }
        let ghost s9 = *self;
        self.patch_breaks(&breaks, Ghost(s0));
        proof {
            let c = s9.code();
            let n = c.len() as int;
            let e = exit_jump as int;
            let m = s1.cur().jumps@.len() - 1;
            let ea = t3.cur().jumps@[m].2@;
            let eb = t5.cur().jumps@[m].2@;
            assert(t4.cur().jumps@[m] == t3.cur().jumps@[m]);
            assert(jump_grows(t4.cur().jumps@[m], t5.cur().jumps@[m], t4.code().len()));
            assert(s8.cur().jumps@.last() == s8.cur().jumps@[m]);
            assert(s8.cur().jumps@[m] == t5.cur().jumps@[m]);
            assert forall|k: int| 0 <= k < breaks@.len() implies e + 2 < #[trigger] breaks@[k] || breaks@[k] + 2 <= e - 1 by {
                if k < ea.len() {
                    assert(eb[k] == eb.subrange(0, ea.len() as int)[k]);
                    assert(ea[k] + 2 <= t3.code().len());
                }
            }
            assert forall|k: int| 0 <= k < breaks@.len() implies #[trigger] breaks@[k] + 2 <= n - 4 by {
                assert(eb[k] + 2 <= t5.code().len());
            }
            assert forall|k: int| 0 <= k < breaks@.len() implies #[trigger] breaks@[k] + 2 <= c.len() by {}
            lemma_patched_all_keeps(c, breaks@, n - 1);
            lemma_patched_all_keeps(c, breaks@, n - 2);
            lemma_patched_all_keeps(c, breaks@, n - 3);
            lemma_patched_all_keeps(c, breaks@, n - 4);
            lemma_patched_all_keeps(c, breaks@, e - 1);
            lemma_patched_all_keeps(c, breaks@, e);
            lemma_patched_all_keeps(c, breaks@, e + 1);
            lemma_patched_all_keeps(c, breaks@, e + 2);
            assert(t4.code()[e - 1] == op_byte(OpCode::OpJumpIfFalse));
            assert(t4.code()[e + 2] == op_byte(OpCode::OpPop));
            assert(t5.code().subrange(0, t4.code().len() as int)[e - 1] == t5.code()[e - 1]);
            assert(t5.code().subrange(0, t4.code().len() as int)[e + 2] == t5.code()[e + 2]);
            assert(t6.code()[e - 1] == t5.code()[e - 1]);
            assert(t6.code()[e + 2] == t5.code()[e + 2]);
            assert(t7.code()[e - 1] == t6.code()[e - 1]);
            assert(t7.code()[e + 2] == t6.code()[e + 2]);
            assert(c[e - 1] == op_byte(OpCode::OpJumpIfFalse));
            assert(c[e + 2] == op_byte(OpCode::OpPop));
            assert(while_code(s0.code().len() as int, self.code()));
        }
    }

    /// Compiles `if (condition) then-branch` with an optional `else` branch.
    #[verifier::rlimit(40)]
    pub(super) fn if_statement(&mut self, vm: &mut Vm)
        requires
            old(self).wf(),
        ensures
            final(self).wf(),
            keeps_locals(*old(self), *final(self)),
            old(self).parser.current_token.token_type != TokenType::EOF ==> final(self).parser.progress()
                < old(self).parser.progress(),
            if_code(old(self).code().len() as int, final(self).code()),
        decreases old(self).parser.progress(), 4nat,
    {
        let ghost s0 = *self;
        self.consume(TokenType::LeftParen, "Expected '(' after 'if'.");
        let ghost s1 = *self;
        self.expression(vm);
        proof {
            lemma_grows_trans(s0, s1, *self);
        }
        let ghost s2 = *self;
        self.consume(TokenType::RightParen, "Expected ')' after condition.");
        proof {
            lemma_grows_trans(s0, s2, *self);
        }
        let ghost s3 = *self;
        let then_jump = self.emit_jump(OpCode::OpJumpIfFalse);
        self.emit_pop();
        proof {
            assert(self.code().subrange(0, s3.code().len() as int) =~= s3.code());
            lemma_append_grows(s0, s3, *self);
        }
        let ghost s4 = *self;
        self.statement(vm);
        proof {
            lemma_grows_trans(s0, s4, *self);
        }
        let ghost s5 = *self;
        let else_jump = self.emit_jump(OpCode::OpJump);
        proof {
            assert(self.code().subrange(0, s5.code().len() as int) =~= s5.code());
            lemma_append_grows(s0, s5, *self);
        }
        let ghost s6 = *self;
        self.patch_jump(then_jump);
        proof {
            assert(self.code().subrange(0, then_jump as int) =~= s6.code().subrange(0, then_jump as int));
            lemma_patch_grows(s0, s6, *self, then_jump as int);
        }
        let ghost s7 = *self;
        self.emit_pop();
        proof {
            assert(self.code().subrange(0, s7.code().len() as int) =~= s7.code());
            lemma_append_grows(s0, s7, *self);
        }
        let ghost s8 = *self;
        if self.match_token(TokenType::Else) {
            proof {
                lemma_grows_trans(s0, s8, *self);
            }
            let ghost s9 = *self;
            self.statement(vm);
            proof {
                lemma_grows_trans(s0, s9, *self);
            }
        }
        let ghost s10 = *self;
        self.patch_jump(else_jump);
        proof {
            assert(self.code().subrange(0, else_jump as int) =~= s10.code().subrange(0, else_jump as int));
            lemma_patch_grows(s0, s10, *self, else_jump as int);
            let e1 = then_jump as int;
            let e2 = else_jump as int;
            let c = self.code();
            assert(s4.code()[e1 - 1] == op_byte(OpCode::OpJumpIfFalse));
            assert(s4.code()[e1 + 2] == op_byte(OpCode::OpPop));
            assert(s5.code().subrange(0, s4.code().len() as int)[e1 - 1] == s5.code()[e1 - 1]);
            assert(s5.code().subrange(0, s4.code().len() as int)[e1 + 2] == s5.code()[e1 + 2]);
            assert(s6.code()[e1 - 1] == op_byte(OpCode::OpJumpIfFalse));
            assert(s6.code()[e2 - 1] == op_byte(OpCode::OpJump));
            assert(s8.code()[e2 + 2] == op_byte(OpCode::OpPop));
            assert(s8.code()[e1] == s7.code()[e1]);
            assert(s8.code()[e1 + 1] == s7.code()[e1 + 1]);
            assert(s10.code().subrange(0, s8.code().len() as int) == s8.code());
            assert(s10.code()[e1 - 1] == s8.code()[e1 - 1]);
            assert(s10.code()[e1] == s8.code()[e1]);
            assert(s10.code()[e1 + 1] == s8.code()[e1 + 1]);
            assert(s10.code()[e1 + 2] == s8.code()[e1 + 2]);
            assert(s10.code()[e2 - 1] == s8.code()[e2 - 1]);
            assert(s10.code()[e2 + 2] == s8.code()[e2 + 2]);
            assert(c[e1 - 1] == op_byte(OpCode::OpJumpIfFalse));
            assert(c[e2 - 1] == op_byte(OpCode::OpJump));
            assert(if_jumps(c, s0.code().len() as int, e1, e2));
        }
    }

    /// Reads a variable name after a `var` or `fun` (reporting `message` when there is
    /// none): inside a scope declares it as a local and gives 0; at the top level gives
    /// the constant that names the global.
    pub(super) fn parse_variable(&mut self, message: &'static str, vm: &mut Vm) -> (global: u8)
        requires
            old(self).wf(),
        ensures
            final(self).wf(),
            grows(*old(self), *final(self)),
            final(self).cur().locals@.len() <= old(self).cur().locals@.len() + 1,
    {
        let ghost s0 = *self;
        self.consume(TokenType::Identifier, message);
        let token = self.parser.previous_token;
        let last = self.frames.len() - 1;
        if self.frames[last].scope_depth > 0 {
            let ghost s1 = *self;
            self.declare_variable_late(token);
            proof {
                lemma_locals_grows(s0, s1, *self);
            }
            return 0;
        }
        let ghost s1 = *self;
        let global = self.identifier_constant(vm);
        proof {
            assert(self.code().subrange(0, s1.code().len() as int) =~= s1.code());
            lemma_append_grows(s0, s1, *self);
        }
        global
    }

    /// Compiles `break;`: pops the locals of the loop's scopes and jumps out, the jump
    /// patched when the loop ends. Outside a loop it is reported.
    pub(super) fn break_statement(&mut self)
        requires
            old(self).wf(),
        ensures
            final(self).wf(),
            keeps_locals(*old(self), *final(self)),
            ({
                let js = old(self).cur().jumps@;
                if js.len() > 0 {
                    let dc = discard_code(deeper_locals(old(self).cur().locals@, js.last().0), false);
                    let nj = final(self).cur().jumps@.last();
                    &&& final(self).code() == old(self).code() + dc + seq![op_byte(OpCode::OpJump), 0xffu8, 0xffu8]
                    &&& final(self).cur().jumps@.len() == js.len()
                    &&& nj.0 == js.last().0
                    &&& nj.1 == js.last().1
                    &&& nj.2@ == js.last().2@.push((old(self).code().len() + dc.len() + 1) as usize)
                } else {
                    final(self).code() == old(self).code() && final(self).parser.had_error
                }
            }),
    {
        let ghost s0 = *self;
        self.consume(TokenType::Semicolon, "Expected ';' after break.");
        let last = self.frames.len() - 1;
        let ghost s1 = *self;
        if self.frames[last].jumps.len() > 0 {
            let entry = self.frames[last].jumps.pop().unwrap();
            let (loop_depth, start, mut jump) = entry;
            let ghost s2 = *self;
            proof {
                assert(s2.cur().jumps@ == s1.cur().jumps@.drop_last());
                assert forall|k: int| 0 <= k < self.frames@.len() implies frame_wf(#[trigger] self.frames@[k], self.bytes()) by {
                    if k != last {
                        assert(self.frames@[k] == s1.frames@[k]);
                    } else {
                        let nj = self.cur().jumps@;
                        assert forall|j: int, i: int| 0 <= j < nj.len() && 0 <= i < nj[j].2@.len() implies #[trigger] nj[j].2@[i] + 2 <= self.code().len() by {
                            assert(nj[j] == s1.cur().jumps@[j]);
                        }
                    }
                }
            }
            self.discard_locals(loop_depth, false, false);
            let site = self.emit_jump(OpCode::OpJump);
            let ghost s3 = *self;
            proof {
                let dc = discard_code(deeper_locals(s0.cur().locals@, entry.0), false);
                assert(s3.code() =~= s0.code() + dc + seq![op_byte(OpCode::OpJump), 0xffu8, 0xffu8]);
            }
            jump.push(site);
            self.frames[last].jumps.push((loop_depth, start, jump));
            proof {
                let oj = s1.cur().jumps@;
                let nj = self.cur().jumps@;
                let n = oj.len() - 1;
                assert(s3.cur().jumps@ == s2.cur().jumps@);
                assert(nj =~= oj.update(n, (loop_depth, start, jump)));
                assert(oj[n] == entry);
                assert forall|k: int| 0 <= k < self.frames@.len() implies frame_wf(#[trigger] self.frames@[k], self.bytes()) by {
                    if k != last {
                        assert(self.frames@[k] == s1.frames@[k]);
                    } else {
                        assert forall|j: int, i: int| 0 <= j < nj.len() && 0 <= i < nj[j].2@.len() implies #[trigger] nj[j].2@[i] + 2 <= self.code().len() by {
                            if j < n {
                                assert(nj[j] == oj[j]);
                            } else if i < entry.2@.len() {
                                assert(nj[j].2@[i] == entry.2@[i]);
                            }
                        }
                    }
                }
                assert(self.code().subrange(0, s1.code().len() as int) =~= s1.code());
                assert forall|j: int| 0 <= j < oj.len() implies jump_grows(#[trigger] oj[j], nj[j], s1.code().len()) by {
                    if j < n {
                        assert(nj[j] == oj[j]);
                        assert(oj[j].2@.subrange(0, oj[j].2@.len() as int) =~= oj[j].2@);
                    } else {
                        assert(nj[j].2@.subrange(0, entry.2@.len() as int) =~= entry.2@);
                    }
                }
                assert forall|i: int| 0 <= i < s1.frames@.len() - 1 implies frame_kept(#[trigger] s1.frames@[i], self.frames@[i]) by {
                    assert(self.frames@[i] == s1.frames@[i]);
                }
                assert(grows(s1, *self));
                lemma_grows_trans(s0, s1, *self);
                assert(nj.last() == nj[n]);
                assert(oj.last() == oj[n]);
            }
        } else {
            let prev = self.parser.previous_token;
            self.error_at(prev, "Break can't be used outside loops");
            proof {
                lemma_parse_grows(s0, s1, *self);
            }
        }
    }

    /// Compiles `continue;`: pops the locals of the loop's scopes and jumps back to the
    /// loop's start. Outside a loop it is reported.
    pub(super) fn continue_statement(&mut self)
        requires
            old(self).wf(),
        ensures
            final(self).wf(),
            keeps_locals(*old(self), *final(self)),
            final(self).cur().jumps == old(self).cur().jumps,
            ({
                let js = old(self).cur().jumps@;
                if js.len() > 0 {
                    let dc = discard_code(deeper_locals(old(self).cur().locals@, js.last().0), false);
                    let back = (old(self).code().len() + dc.len() + 3 - js.last().1) % 65536;
                    final(self).code() == old(self).code() + dc + seq![
                        op_byte(OpCode::OpLoop),
                        (back / 256) as u8,
                        (back % 256) as u8,
                    ]
                } else {
                    final(self).code() == old(self).code() && final(self).parser.had_error
                }
            }),
    {
        let ghost s0 = *self;
        self.consume(TokenType::Semicolon, "Expected ';' after continue.");
        let last = self.frames.len() - 1;
        let ghost s1 = *self;
        let n = self.frames[last].jumps.len();
        if n > 0 {
            let loop_depth = self.frames[last].jumps[n - 1].0;
            let start = self.frames[last].jumps[n - 1].1;
            proof {
                assert(frame_wf(self.cur(), self.bytes()));
            }
            self.discard_locals(loop_depth, false, false);
            self.emit_loop(start);
            proof {
                let js = s0.cur().jumps@;
                assert(js.last() == js[n - 1]);
                let dc = discard_code(deeper_locals(s0.cur().locals@, js.last().0), false);
                let back = (s0.code().len() + dc.len() + 3 - js.last().1) % 65536;
                assert(self.code() =~= s0.code() + dc + seq![
                    op_byte(OpCode::OpLoop),
                    (back / 256) as u8,
                    (back % 256) as u8,
                ]);
                assert(self.code().subrange(0, s1.code().len() as int) =~= s1.code());
                lemma_append_grows(s0, s1, *self);
            }
        } else {
            let prev = self.parser.previous_token;
            self.error_at(prev, "Continue can't be used outside loops");
            proof {
                lemma_parse_grows(s0, s1, *self);
            }
        }
    }
}

} // verus!
