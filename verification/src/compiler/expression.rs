use vstd::prelude::*;
use vstd::utf8::*;
use vstd::string::StringSliceAdditionalSpecFns;
use crate::chunk::{OpCode, op_byte};
use crate::scanner::{lexeme_of, token_in};
use crate::token::{Token, TokenType};
use crate::value::{ONE_BITS, Value};
use crate::vm::{Vm, intern_spec};
use super::{Compiler, constant_index, constants_after, declared_outside, find_local, uninitialized_named};
use super::growth::{
    grows, keeps_locals, lemma_append_grows, lemma_grows_refl, lemma_grows_trans, lemma_keeps_grows, lemma_parse_grows,
    lemma_patch_grows,
};
use super::rules::{ParseFn, Precedence, get_rule, level, rule_of};
use super::parser::{quoted, report};

verus! {

/// The value (as the bits of a double) given for the number literal that starts at byte
/// `start`: the first entry for it.
pub open spec fn number_at(numbers: Seq<(usize, u64)>, start: usize) -> Option<u64>
    decreases numbers.len(),
{
    if numbers.len() == 0 {
        None
    } else if numbers[0].0 == start {
        Some(numbers[0].1)
    } else {
        number_at(numbers.drop_first(), start)
    }
}

/// The text of a string literal token: its source without the two quotes.
pub open spec fn string_text(bytes: Seq<u8>, start: int, length: int) -> Seq<char> {
    decode_utf8(bytes.subrange(start + 1, start + length - 1))
}

/// The instruction for a literal keyword.
pub open spec fn literal_op(t: TokenType) -> OpCode {
    if t == TokenType::Nil {
        OpCode::OpNil
    } else if t == TokenType::True {
        OpCode::OpTrue
    } else {
        OpCode::OpFalse
    }
}

/// Whether a pair of instructions reads and writes a local, a captured variable or a
/// global.
pub open spec fn access_pair(get_op: OpCode, set_op: OpCode) -> bool {
    ||| get_op == OpCode::OpGetLocal && set_op == OpCode::OpSetLocal
    ||| get_op == OpCode::OpGetUpvalue && set_op == OpCode::OpSetUpvalue
    ||| get_op == OpCode::OpGetGlobal && set_op == OpCode::OpSetGlobal
}

/// The code of a binary operator.
pub open spec fn binary_code(t: TokenType) -> Seq<u8> {
    match t {
        TokenType::BangEqual => seq![op_byte(OpCode::OpEqual), op_byte(OpCode::OpNot)],
        TokenType::EqualEqual => seq![op_byte(OpCode::OpEqual)],
        TokenType::Greater => seq![op_byte(OpCode::OpGreater)],
        TokenType::Less => seq![op_byte(OpCode::OpLess)],
        TokenType::GreaterEqual => seq![op_byte(OpCode::OpLess), op_byte(OpCode::OpNot)],
        TokenType::LessEqual => seq![op_byte(OpCode::OpGreater), op_byte(OpCode::OpNot)],
        TokenType::Plus => seq![op_byte(OpCode::OpAdd)],
        TokenType::Minus => seq![op_byte(OpCode::OpSubtract)],
        TokenType::Star => seq![op_byte(OpCode::OpMultiply)],
        _ => seq![op_byte(OpCode::OpDivide)],
    }
}

/// The code of `++name` or `--name` once `name` is resolved to the instructions
/// `get_op`/`set_op` with operand `arg`: read it, load the constant 1 (at index `k`),
/// add it for `++` (`t`) or subtract it for `--`, and store the result, which stays on
/// the stack.
pub open spec fn step_code(get_op: OpCode, set_op: OpCode, arg: u8, k: u8, t: TokenType) -> Seq<u8> {
    let op = if t == TokenType::PlusPlus {
        OpCode::OpAdd
    } else {
        OpCode::OpSubtract
    };
    seq![op_byte(get_op), arg, op_byte(OpCode::OpConstant), k, op_byte(op), op_byte(set_op), arg]
}

/// Whether the token `t` names a variable of `c`'s current function that is declared but
/// still in its initializer, with no initialized local of that name.
pub open spec fn reads_uninitialized(c: Compiler, t: Token) -> bool {
    let ls = c.cur().locals@;
    let name = lexeme_of(c.bytes(), t);
    &&& t.token_type == TokenType::Identifier
    &&& find_local(ls, c.bytes(), name, ls.len() as int) is None
    &&& uninitialized_named(ls, c.bytes(), name)
}

/// The code of `left and right` from `start` to `end`, after the left operand: a jump to
/// `end` (over the right operand) when the left value is false, then a pop of the left
/// value before the right operand's code.
pub open spec fn and_code(c: Seq<u8>, start: int, end: int) -> bool {
    let out = (end - start - 3) % 65536;
    &&& 0 <= start
    &&& start + 4 <= end <= c.len()
    &&& c[start] == op_byte(OpCode::OpJumpIfFalse)
    &&& c[start + 1] == (out / 256) as u8
    &&& c[start + 2] == (out % 256) as u8
    &&& c[start + 3] == op_byte(OpCode::OpPop)
}

/// The code of `left or right` from `start` to `end`, after the left operand: a jump
/// when the left value is false over the next instruction, a jump to `end` (over the
/// right operand), then a pop of the left value before the right operand's code.
pub open spec fn or_code(c: Seq<u8>, start: int, end: int) -> bool {
    let out = (end - start - 6) % 65536;
    &&& 0 <= start
    &&& start + 7 <= end <= c.len()
    &&& c[start] == op_byte(OpCode::OpJumpIfFalse)
    &&& c[start + 1] == 0
    &&& c[start + 2] == 3
    &&& c[start + 3] == op_byte(OpCode::OpJump)
    &&& c[start + 4] == (out / 256) as u8
    &&& c[start + 5] == (out % 256) as u8
    &&& c[start + 6] == op_byte(OpCode::OpPop)
}

/// Whether `code` ends with `tail`.
pub open spec fn ends_with(code: Seq<u8>, tail: Seq<u8>) -> bool {
    tail.len() <= code.len() && code.subrange(code.len() - tail.len(), code.len() as int) == tail
}

impl Compiler {
    /// Parses an expression whose operators bind at least as tightly as `precedence`,
    /// emitting its code: a prefix rule for the first token, then infix rules while the
    /// next operator binds tightly enough. An `=` left over where assignment is allowed
    /// is reported.
    pub(super) fn parse_precedence(&mut self, precedence: Precedence, vm: &mut Vm)
        requires
            old(self).wf(),
            level(precedence) >= 1,
        ensures
            final(self).wf(),
            keeps_locals(*old(self), *final(self)),
            old(self).parser.current_token.token_type != TokenType::EOF ==> final(self).parser.progress()
                < old(self).parser.progress(),
            rule_of(old(self).parser.current_token.token_type).prefix is None ==> final(self).parser.had_error,
            reads_uninitialized(*old(self), old(self).parser.current_token) ==> final(self).parser.had_error,
        decreases old(self).parser.progress(), 0nat,
    {
        let ghost s0 = *self;
        self.advance();
        let current_can_assign = self.parser.can_assign;
        let ghost s1 = *self;
        self.parser.can_assign = precedence.level() <= 1;
        proof {
            lemma_parse_grows(s0, s1, *self);
        }
        let prev_type = self.parser.previous_token.token_type;
        match get_rule(prev_type).prefix {
            Some(prefix_fn) => {
                let ghost s2 = *self;
                proof {
                    assert(s2.frames == s0.frames);
                    assert(s2.bytes() == s0.bytes());
                    assert(s2.parser.previous_token == s0.parser.current_token);
                    if reads_uninitialized(s0, s0.parser.current_token) {
                        assert(reads_uninitialized(s2, s2.parser.previous_token));
                        assert(prefix_fn == ParseFn::Variable);
                    }
                }
                self.apply(prefix_fn, vm);
                proof {
                    lemma_grows_trans(s0, s2, *self);
                }
            },
            None => {
                let prev = self.parser.previous_token;
                let ghost s2 = *self;
                self.error_at(prev, "Expected expression.");
                proof {
                    lemma_parse_grows(s0, s2, *self);
                }
                return;
            },
        }
        while precedence.level() <= get_rule(self.parser.current_token.token_type).precedence.level()
            invariant
                self.wf(),
                keeps_locals(s0, *self),
                s0.frames@.len() >= 1,
                self.parser.progress() < old(self).parser.progress(),
                self.cur().scope_depth < self.consumed(),
                level(precedence) >= 1,
                reads_uninitialized(s0, s0.parser.current_token) ==> self.parser.had_error,
            decreases self.parser.progress(),
        {
            let ghost s3 = *self;
            self.advance();
            proof {
                lemma_grows_trans(s0, s3, *self);
            }
            let prev_type = self.parser.previous_token.token_type;
            if let Some(infix_fn) = get_rule(prev_type).infix {
                let ghost s4 = *self;
                self.apply(infix_fn, vm);
                proof {
                    lemma_grows_trans(s0, s4, *self);
                }
            }
        }
        if self.parser.can_assign {
            let ghost s5 = *self;
            if self.match_token(TokenType::Equal) {
                proof {
                    lemma_grows_trans(s0, s5, *self);
                }
                let prev = self.parser.previous_token;
                let ghost s6 = *self;
                self.error_at(prev, "Invalid assignment target.");
                proof {
                    lemma_parse_grows(s0, s6, *self);
                }
            }
        }
        let ghost s7 = *self;
        self.parser.can_assign = current_can_assign;
        proof {
            lemma_parse_grows(s0, s7, *self);
        }
    }

    /// Parses an expression.
    pub(super) fn expression(&mut self, vm: &mut Vm)
        requires
            old(self).wf(),
        ensures
            final(self).wf(),
            keeps_locals(*old(self), *final(self)),
            old(self).parser.current_token.token_type != TokenType::EOF ==> final(self).parser.progress()
                < old(self).parser.progress(),
            rule_of(old(self).parser.current_token.token_type).prefix is None ==> final(self).parser.had_error,
            reads_uninitialized(*old(self), old(self).parser.current_token) ==> final(self).parser.had_error,
        decreases old(self).parser.progress(), 1nat,
    {
        self.parse_precedence(Precedence::Assignment, vm);
    }

    /// Runs the parsing routine `f`, a prefix or infix rule of the previous token.
    pub(super) fn apply(&mut self, f: ParseFn, vm: &mut Vm)
        requires
            old(self).wf(),
            rule_of(old(self).parser.previous_token.token_type).prefix == Some(f)
                || rule_of(old(self).parser.previous_token.token_type).infix == Some(f),
            old(self).cur().scope_depth < old(self).consumed(),
        ensures
            final(self).wf(),
            keeps_locals(*old(self), *final(self)),
            f == ParseFn::Variable && reads_uninitialized(*old(self), old(self).parser.previous_token)
                ==> final(self).parser.had_error,
        decreases old(self).parser.progress(), 7nat,
    {
        match f {
            ParseFn::Grouping => self.grouping(vm),
            ParseFn::Call => self.call(vm),
            ParseFn::Unary => self.unary(vm),
            ParseFn::Binary => self.binary(vm),
            ParseFn::Number => self.number(),
            ParseFn::String => self.string(vm),
            ParseFn::Variable => self.variable(vm),
            ParseFn::Literal => self.literal(),
            ParseFn::And => self.and_(vm),
            ParseFn::Or => self.or_(vm),
            ParseFn::Switch => self.switch(vm),
            ParseFn::Prefix => self.prefix_(vm),
            ParseFn::Array => self.array(vm),
            ParseFn::MakeArray => self.make_array(vm),
            ParseFn::Len => self.len_(vm),
        }
    }

    /// Compiles a parenthesized expression.
    pub(super) fn grouping(&mut self, vm: &mut Vm)
        requires
            old(self).wf(),
        ensures
            final(self).wf(),
            keeps_locals(*old(self), *final(self)),
        decreases old(self).parser.progress(), 2nat,
    {
        let ghost s0 = *self;
        self.expression(vm);
        let ghost s1 = *self;
        self.consume(TokenType::RightParen, "Expected ')' after expression");
        proof {
            lemma_grows_trans(s0, s1, *self);
        }
    }

    /// Compiles `-` or `!` and its operand.
    pub(super) fn unary(&mut self, vm: &mut Vm)
        requires
            old(self).wf(),
            old(self).parser.previous_token.token_type == TokenType::Minus
                || old(self).parser.previous_token.token_type == TokenType::Bang,
        ensures
            final(self).wf(),
            keeps_locals(*old(self), *final(self)),
            final(self).code().len() > 0,
            final(self).code().last() == op_byte(
                if old(self).parser.previous_token.token_type == TokenType::Minus {
                    OpCode::OpNegate
                } else {
                    OpCode::OpNot
                },
            ),
        decreases old(self).parser.progress(), 2nat,
    {
        let ghost s0 = *self;
        let operator_type = self.parser.previous_token.token_type;
        self.parse_precedence(Precedence::Unary, vm);
        let ghost s1 = *self;
        match operator_type {
            TokenType::Minus => self.emit_byte(OpCode::OpNegate.to_byte()),
            _ => self.emit_byte(OpCode::OpNot.to_byte()),
        }
        proof {
            assert(self.code().subrange(0, s1.code().len() as int) =~= s1.code());
            lemma_append_grows(s0, s1, *self);
        }
    }

    /// Compiles a binary operator and its right operand, which binds one level more
    /// tightly.
    pub(super) fn binary(&mut self, vm: &mut Vm)
        requires
            old(self).wf(),
            rule_of(old(self).parser.previous_token.token_type).infix == Some(ParseFn::Binary),
        ensures
            final(self).wf(),
            keeps_locals(*old(self), *final(self)),
            ends_with(final(self).code(), binary_code(old(self).parser.previous_token.token_type)),
        decreases old(self).parser.progress(), 2nat,
    {
        let ghost s0 = *self;
        let operator_type = self.parser.previous_token.token_type;
        let rule = get_rule(operator_type);
        let ghost s1 = *self;
        match Precedence::try_from(rule.precedence.level() + 1) {
            Ok(p) => {
                self.parse_precedence(p, vm);
            },
            Err(_) => {
                proof {
                    assert(false);
                }
            },
        }
        let ghost s2 = *self;
        match operator_type {
            TokenType::BangEqual => self.emit_bytes(OpCode::OpEqual.to_byte(), OpCode::OpNot.to_byte()),
            TokenType::EqualEqual => self.emit_byte(OpCode::OpEqual.to_byte()),
            TokenType::Greater => self.emit_byte(OpCode::OpGreater.to_byte()),
            TokenType::Less => self.emit_byte(OpCode::OpLess.to_byte()),
            TokenType::GreaterEqual => self.emit_bytes(OpCode::OpLess.to_byte(), OpCode::OpNot.to_byte()),
            TokenType::LessEqual => self.emit_bytes(OpCode::OpGreater.to_byte(), OpCode::OpNot.to_byte()),
            TokenType::Plus => self.emit_byte(OpCode::OpAdd.to_byte()),
            TokenType::Minus => self.emit_byte(OpCode::OpSubtract.to_byte()),
            TokenType::Star => self.emit_byte(OpCode::OpMultiply.to_byte()),
            _ => self.emit_byte(OpCode::OpDivide.to_byte()),
        }
        proof {
            let c = self.code();
            let t = binary_code(operator_type);
            assert(c =~= s2.code() + t);
            assert(c.subrange(c.len() - t.len(), c.len() as int) =~= t);
            assert(c.subrange(0, s2.code().len() as int) =~= s2.code());
            lemma_append_grows(s0, s2, *self);
        }
    }

    /// Compiles the right operand of `and`, skipped when the left one is false.
    pub(super) fn and_(&mut self, vm: &mut Vm)
        requires
            old(self).wf(),
        ensures
            final(self).wf(),
            keeps_locals(*old(self), *final(self)),
            and_code(final(self).code(), old(self).code().len() as int, final(self).code().len() as int),
        decreases old(self).parser.progress(), 2nat,
    {
        let ghost s0 = *self;
        proof {
            lemma_grows_refl(s0);
        }
        let end_jump = self.emit_jump(OpCode::OpJumpIfFalse);
        self.emit_pop();
        let ghost s1 = *self;
        proof {
            assert(s1.code().subrange(0, s0.code().len() as int) =~= s0.code());
            lemma_append_grows(s0, s0, s1);
        }
        self.parse_precedence(Precedence::And, vm);
        let ghost s2 = *self;
        proof {
            lemma_grows_trans(s0, s1, s2);
        }
        self.patch_jump(end_jump);
        proof {
            assert(self.code().subrange(0, end_jump as int) =~= s2.code().subrange(0, end_jump as int));
            lemma_patch_grows(s0, s2, *self, end_jump as int);
            let n0 = s0.code().len() as int;
            assert(s1.code() =~= s0.code() + seq![op_byte(OpCode::OpJumpIfFalse), 0xffu8, 0xffu8, op_byte(OpCode::OpPop)]);
            assert(s2.code().subrange(0, s1.code().len() as int) == s1.code());
            assert(s2.code()[n0] == s1.code()[n0]);
            assert(s2.code()[n0 + 3] == s1.code()[n0 + 3]);
        }
    }

    /// Compiles the right operand of `or`, skipped when the left one is true.
    pub(super) fn or_(&mut self, vm: &mut Vm)
        requires
            old(self).wf(),
        ensures
            final(self).wf(),
            keeps_locals(*old(self), *final(self)),
            or_code(final(self).code(), old(self).code().len() as int, final(self).code().len() as int),
        decreases old(self).parser.progress(), 2nat,
    {
        let ghost s0 = *self;
        proof {
            lemma_grows_refl(s0);
        }
        let else_jump = self.emit_jump(OpCode::OpJumpIfFalse);
        let end_jump = self.emit_jump(OpCode::OpJump);
        let ghost s1 = *self;
        proof {
            assert(s1.code().subrange(0, s0.code().len() as int) =~= s0.code());
            lemma_append_grows(s0, s0, s1);
        }
        self.patch_jump(else_jump);
        let ghost s2 = *self;
        proof {
            assert(s2.code().subrange(0, else_jump as int) =~= s1.code().subrange(0, else_jump as int));
            lemma_patch_grows(s0, s1, s2, else_jump as int);
        }
        self.emit_pop();
        let ghost s3 = *self;
        proof {
            assert(s3.code().subrange(0, s2.code().len() as int) =~= s2.code());
            lemma_append_grows(s0, s2, s3);
        }
        self.parse_precedence(Precedence::Or, vm);
        let ghost s4 = *self;
        proof {
            lemma_grows_trans(s0, s3, s4);
        }
        self.patch_jump(end_jump);
        proof {
            assert(self.code().subrange(0, end_jump as int) =~= s4.code().subrange(0, end_jump as int));
            lemma_patch_grows(s0, s4, *self, end_jump as int);
            let n0 = s0.code().len() as int;
            assert(s1.code() =~= s0.code() + seq![op_byte(OpCode::OpJumpIfFalse), 0xffu8, 0xffu8, op_byte(OpCode::OpJump), 0xffu8, 0xffu8]);
            assert(s4.code().subrange(0, s3.code().len() as int) == s3.code());
            assert(s4.code()[n0] == s3.code()[n0]);
            assert(s4.code()[n0 + 1] == s3.code()[n0 + 1]);
            assert(s4.code()[n0 + 2] == s3.code()[n0 + 2]);
            assert(s4.code()[n0 + 3] == s3.code()[n0 + 3]);
            assert(s4.code()[n0 + 6] == s3.code()[n0 + 6]);
        }
    }

    /// Compiles a use of a variable: `name++`, `name--`, `name[index]`, `name[index] =
    /// value`, `name = value` (where assignment is allowed) or a plain read.
    #[verifier::rlimit(40)]
    pub(super) fn variable(&mut self, vm: &mut Vm)
        requires
            old(self).wf(),
        ensures
            final(self).wf(),
            keeps_locals(*old(self), *final(self)),
            reads_uninitialized(*old(self), old(self).parser.previous_token) ==> final(self).parser.had_error,
        decreases old(self).parser.progress(), 2nat,
    {
        let ghost s0 = *self;
        let (get_op, set_op, arg) = self.resolve_(vm);
        let ghost s1 = *self;
        if self.match_token(TokenType::PlusPlus) {
            proof {
                lemma_grows_trans(s0, s1, *self);
            }
            let ghost s2 = *self;
            self.postfix_(get_op, set_op, OpCode::OpAdd, arg);
            proof {
                lemma_grows_trans(s0, s2, *self);
            }
        } else if self.match_token(TokenType::MinusMinus) {
            proof {
                lemma_grows_trans(s0, s1, *self);
            }
            let ghost s2 = *self;
            self.postfix_(get_op, set_op, OpCode::OpSubtract, arg);
            proof {
                lemma_grows_trans(s0, s2, *self);
            }
        } else if self.match_token(TokenType::LeftBracket) {
            proof {
                lemma_grows_trans(s0, s1, *self);
            }
            let ghost s2 = *self;
            self.emit_bytes(get_op.to_byte(), arg);
            proof {
                assert(self.code().subrange(0, s2.code().len() as int) =~= s2.code());
                lemma_append_grows(s0, s2, *self);
            }
            let ghost s3 = *self;
            self.expression(vm);
            proof {
                lemma_grows_trans(s0, s3, *self);
            }
            let ghost s4 = *self;
            self.consume(TokenType::RightBracket, "Expect ']'");
            proof {
                lemma_grows_trans(s0, s4, *self);
            }
            let ghost s5 = *self;
            if self.parser.can_assign && self.match_token(TokenType::Equal) {
                proof {
                    lemma_grows_trans(s0, s5, *self);
                }
                let ghost s6 = *self;
                self.expression(vm);
                proof {
                    lemma_grows_trans(s0, s6, *self);
                }
                let ghost s7 = *self;
                self.emit_byte(OpCode::OpSetIndex.to_byte());
                proof {
                    assert(self.code().subrange(0, s7.code().len() as int) =~= s7.code());
                    lemma_append_grows(s0, s7, *self);
                }
            } else {
                let ghost s7 = *self;
                self.emit_byte(OpCode::OpGetIndex.to_byte());
                proof {
                    assert(self.code().subrange(0, s7.code().len() as int) =~= s7.code());
                    lemma_append_grows(s0, s7, *self);
                }
            }
        } else if self.parser.can_assign && self.match_token(TokenType::Equal) {
            proof {
                lemma_grows_trans(s0, s1, *self);
            }
            let ghost s2 = *self;
            self.expression(vm);
            proof {
                lemma_grows_trans(s0, s2, *self);
            }
            let ghost s3 = *self;
            self.emit_bytes(set_op.to_byte(), arg);
            proof {
                assert(self.code().subrange(0, s3.code().len() as int) =~= s3.code());
                lemma_append_grows(s0, s3, *self);
            }
        } else {
            let ghost s2 = *self;
            self.emit_bytes(get_op.to_byte(), arg);
            proof {
                assert(self.code().subrange(0, s2.code().len() as int) =~= s2.code());
                lemma_append_grows(s0, s2, *self);
            }
        }
    }

    /// Compiles `++name` or `--name`: stores and leaves the new value.
    pub(super) fn prefix_(&mut self, vm: &mut Vm)
        requires
            old(self).wf(),
            old(self).parser.previous_token.token_type == TokenType::PlusPlus
                || old(self).parser.previous_token.token_type == TokenType::MinusMinus,
        ensures
            final(self).wf(),
            keeps_locals(*old(self), *final(self)),
            exists|get_op: OpCode, set_op: OpCode, arg: u8, k: u8|
                access_pair(get_op, set_op) && final(self).code() == old(self).code() + #[trigger] step_code(
                    get_op,
                    set_op,
                    arg,
                    k,
                    old(self).parser.previous_token.token_type,
                ),
    {
        let ghost s0 = *self;
        let op = match self.parser.previous_token.token_type {
            TokenType::PlusPlus => OpCode::OpAdd,
            _ => OpCode::OpSubtract,
        };
        self.advance();
        let ghost s1 = *self;
        let (get_op, set_op, arg) = self.resolve_(vm);
        proof {
            lemma_grows_trans(s0, s1, *self);
        }
        let ghost s2 = *self;
        self.emit_bytes(get_op.to_byte(), arg);
        self.emit_constant(Value::Number(ONE_BITS));
        self.emit_byte(op.to_byte());
        self.emit_bytes(set_op.to_byte(), arg);
        proof {
            assert(self.code().subrange(0, s2.code().len() as int) =~= s2.code());
            lemma_append_grows(s0, s2, *self);
            let k = constant_index(s2.chunk_view().constants, Value::Number(ONE_BITS));
            assert(self.code() =~= s0.code() + step_code(get_op, set_op, arg, k, s0.parser.previous_token.token_type));
        }
    }

    /// Compiles a call's arguments and the call (the count of arguments modulo 256).
    pub(super) fn call(&mut self, vm: &mut Vm)
        requires
            old(self).wf(),
        ensures
            final(self).wf(),
            keeps_locals(*old(self), *final(self)),
            final(self).code().len() >= 2,
            final(self).code()[final(self).code().len() - 2] == op_byte(OpCode::OpCall),
        decreases old(self).parser.progress(), 2nat,
    {
        let ghost s0 = *self;
        proof {
            lemma_grows_refl(s0);
        }
        let mut arguments: u8 = 0;
        if !self.parser.check(TokenType::RightParen) {
            loop
                invariant
                    self.wf(),
                    keeps_locals(s0, *self),
                    s0.frames@.len() >= 1,
                    self.parser.progress() <= old(self).parser.progress(),
                decreases self.parser.progress(),
            {
                let ghost s1 = *self;
                self.expression(vm);
                proof {
                    lemma_grows_trans(s0, s1, *self);
                }
                arguments = arguments.wrapping_add(1);
                let ghost s2 = *self;
                if !self.match_token(TokenType::Comma) {
                    break;
                }
                proof {
                    lemma_grows_trans(s0, s2, *self);
                }
            }
        }
        let ghost s3 = *self;
        self.consume(TokenType::RightParen, "Expected ')'");
        proof {
            lemma_grows_trans(s0, s3, *self);
        }
        let ghost s4 = *self;
        self.emit_bytes(OpCode::OpCall.to_byte(), arguments);
        proof {
            assert(self.code().subrange(0, s4.code().len() as int) =~= s4.code());
            lemma_append_grows(s0, s4, *self);
        }
    }

    /// Compiles an array literal `[a, b, ...]` (the count of elements modulo 256).
    pub(super) fn array(&mut self, vm: &mut Vm)
        requires
            old(self).wf(),
        ensures
            final(self).wf(),
            keeps_locals(*old(self), *final(self)),
            final(self).code().len() >= 2,
            final(self).code()[final(self).code().len() - 2] == op_byte(OpCode::OpArray),
        decreases old(self).parser.progress(), 2nat,
    {
        let ghost s0 = *self;
        proof {
            lemma_grows_refl(s0);
        }
        let mut count: u8 = 0;
        while !self.parser.check(TokenType::RightBracket)
            invariant
                self.wf(),
                keeps_locals(s0, *self),
                s0.frames@.len() >= 1,
                self.parser.progress() <= old(self).parser.progress(),
            decreases self.parser.progress(),
        {
            let ghost s1 = *self;
            self.expression(vm);
            proof {
                lemma_grows_trans(s0, s1, *self);
            }
            count = count.wrapping_add(1);
            let ghost s2 = *self;
            if !self.match_token(TokenType::Comma) {
                break;
            }
            proof {
                lemma_grows_trans(s0, s2, *self);
            }
        }
        let ghost s3 = *self;
        self.consume(TokenType::RightBracket, "Expected ']'");
        proof {
            lemma_grows_trans(s0, s3, *self);
        }
        let ghost s4 = *self;
        self.emit_bytes(OpCode::OpArray.to_byte(), count);
        proof {
            assert(self.code().subrange(0, s4.code().len() as int) =~= s4.code());
            lemma_append_grows(s0, s4, *self);
        }
    }

    /// Compiles `(operand)` followed by `op`, for `array(n)` and `len(a)`.
    fn parenthesized(&mut self, op: OpCode, vm: &mut Vm)
        requires
            old(self).wf(),
        ensures
            final(self).wf(),
            keeps_locals(*old(self), *final(self)),
            final(self).code().len() >= 1,
            final(self).code().last() == op_byte(op),
        decreases old(self).parser.progress(), 2nat,
    {
        let ghost s0 = *self;
        self.consume(TokenType::LeftParen, "Expected '('");
        let ghost s1 = *self;
        self.expression(vm);
        proof {
            lemma_grows_trans(s0, s1, *self);
        }
        let ghost s2 = *self;
        self.consume(TokenType::RightParen, "Expected ')'");
        proof {
            lemma_grows_trans(s0, s2, *self);
        }
        let ghost s3 = *self;
        self.emit_byte(op.to_byte());
        proof {
            assert(self.code().subrange(0, s3.code().len() as int) =~= s3.code());
            lemma_append_grows(s0, s3, *self);
        }
    }

    /// Compiles `array(length)`: a new array of that length.
    pub(super) fn make_array(&mut self, vm: &mut Vm)
        requires
            old(self).wf(),
        ensures
            final(self).wf(),
            keeps_locals(*old(self), *final(self)),
            final(self).code().len() >= 1,
            final(self).code().last() == op_byte(OpCode::OpMakeArray),
        decreases old(self).parser.progress(), 3nat,
    {
        self.parenthesized(OpCode::OpMakeArray, vm);
    }

    /// Compiles `len(array)`: the length of an array.
    pub(super) fn len_(&mut self, vm: &mut Vm)
        requires
            old(self).wf(),
        ensures
            final(self).wf(),
            keeps_locals(*old(self), *final(self)),
            final(self).code().len() >= 1,
            final(self).code().last() == op_byte(OpCode::OpLen),
        decreases old(self).parser.progress(), 3nat,
    {
        self.parenthesized(OpCode::OpLen, vm);
    }

    /// Compiles `switch value { case v => {...} ... default => {...} }`: each case
    /// compares a copy of the value, runs its block when equal and jumps to the end.
    pub(super) fn switch(&mut self, vm: &mut Vm)
        requires
            old(self).wf(),
            old(self).cur().scope_depth < old(self).consumed(),
        ensures
            final(self).wf(),
            keeps_locals(*old(self), *final(self)),
            old(self).parser.current_token.token_type != TokenType::EOF ==> final(self).parser.progress()
                < old(self).parser.progress(),
            rule_of(old(self).parser.current_token.token_type).prefix is None ==> final(self).parser.had_error,
        decreases old(self).parser.progress(), 6nat,
    {
        let ghost s0 = *self;
        self.expression(vm);
        let mut end_jumps: Vec<usize> = Vec::new();
        let ghost s1 = *self;
        self.consume(TokenType::LeftBrace, "Expected '{'");
        proof {
            lemma_grows_trans(s0, s1, *self);
        }
        loop
            invariant
                self.wf(),
                keeps_locals(s0, *self),
                s0.frames@.len() >= 1,
                self.parser.progress() <= old(self).parser.progress(),
                self.parser.progress() <= s1.parser.progress(),
                s1.parser.had_error ==> self.parser.had_error,
                forall|k: int| 0 <= k < end_jumps@.len() ==> #[trigger] end_jumps@[k] >= s0.code().len() && end_jumps@[k] + 2
                    <= self.code().len(),
            decreases self.parser.progress(),
        {
            let ghost t0 = *self;
            if !self.match_token(TokenType::Case) {
                break;
            }
            proof {
                lemma_grows_trans(s0, t0, *self);
            }
            let ghost t1 = *self;
            self.emit_byte(OpCode::OpDup.to_byte());
            proof {
                assert(self.code().subrange(0, t1.code().len() as int) =~= t1.code());
                lemma_append_grows(s0, t1, *self);
            }
            let ghost t2 = *self;
            self.expression(vm);
            proof {
                lemma_grows_trans(s0, t2, *self);
            }
            let ghost t3 = *self;
            self.emit_byte(OpCode::OpEqual.to_byte());
            proof {
                assert(self.code().subrange(0, t3.code().len() as int) =~= t3.code());
                lemma_append_grows(s0, t3, *self);
            }
            let ghost t4 = *self;
            self.consume(TokenType::EqualGreater, "Expected '=>'");
            proof {
                lemma_grows_trans(s0, t4, *self);
            }
            let ghost t5 = *self;
            let fail_jump = self.emit_jump(OpCode::OpJumpIfFalse);
            self.emit_pop();
            self.emit_pop();
            proof {
                assert(self.code().subrange(0, t5.code().len() as int) =~= t5.code());
                lemma_append_grows(s0, t5, *self);
            }
            let ghost t6 = *self;
            self.case_block(vm);
            proof {
                lemma_grows_trans(s0, t6, *self);
            }
            let ghost t7 = *self;
            let end_jump = self.emit_jump(OpCode::OpJump);
            end_jumps.push(end_jump);
            proof {
                assert(self.code().subrange(0, t7.code().len() as int) =~= t7.code());
                lemma_append_grows(s0, t7, *self);
            }
            let ghost t8 = *self;
            self.patch_jump(fail_jump);
            proof {
                assert(self.code().subrange(0, fail_jump as int) =~= t8.code().subrange(0, fail_jump as int));
                lemma_patch_grows(s0, t8, *self, fail_jump as int);
            }
            let ghost t9 = *self;
            self.emit_pop();
            proof {
                assert(self.code().subrange(0, t9.code().len() as int) =~= t9.code());
                lemma_append_grows(s0, t9, *self);
            }
        }
        let ghost s2 = *self;
        self.emit_pop();
        proof {
            assert(self.code().subrange(0, s2.code().len() as int) =~= s2.code());
            lemma_append_grows(s0, s2, *self);
        }
        let ghost s3 = *self;
        self.consume(TokenType::Default, "Expected default");
        self.consume(TokenType::EqualGreater, "Expected '=>'");
        proof {
            lemma_grows_trans(s0, s3, *self);
        }
        let ghost s4 = *self;
        self.case_block(vm);
        proof {
            lemma_grows_trans(s0, s4, *self);
        }
        let ghost s5 = *self;
        self.consume(TokenType::RightBrace, "Expected '}'");
        proof {
            lemma_grows_trans(s0, s5, *self);
        }
        self.patch_breaks(&end_jumps, Ghost(s0));
    }

    /// Resolves the variable named by the previous token: a local of the current
    /// function, else a variable captured from an enclosing one (when one of them has a
    /// local of that name), else a global (whose name is added to the constant pool). Gives the instructions that read and write it
    /// and their operand.
    pub(super) fn resolve_(&mut self, vm: &mut Vm) -> (r: (OpCode, OpCode, u8))
        requires
            old(self).wf(),
        ensures
            final(self).wf(),
            keeps_locals(*old(self), *final(self)),
            access_pair(r.0, r.1),
            final(self).code() == old(self).code(),
            reads_uninitialized(*old(self), old(self).parser.previous_token) ==> final(self).parser.had_error,
            ({
                let ls = old(self).cur().locals@;
                let name = lexeme_of(old(self).bytes(), old(self).parser.previous_token);
                match find_local(ls, old(self).bytes(), name, ls.len() as int) {
                    Some(i) => {
                        &&& r == (OpCode::OpGetLocal, OpCode::OpSetLocal, i as u8)
                        &&& final(self).frames == old(self).frames
                        &&& final(self).parser@ == old(self).parser@
                        &&& final(vm)@ == old(vm)@
                    },
                    None => if declared_outside(old(self).frames@, old(self).bytes(), name, old(self).frames@.len() - 1) {
                        r.0 == OpCode::OpGetUpvalue && r.1 == OpCode::OpSetUpvalue
                    } else {
                        let (v, obj) = intern_spec(old(vm)@, decode_utf8(name));
                        let cs = old(self).chunk_view().constants;
                        &&& r == (OpCode::OpGetGlobal, OpCode::OpSetGlobal, constant_index(cs, Value::Object(obj)))
                        &&& final(vm)@ == v
                        &&& final(self).chunk_view().constants == constants_after(cs, Value::Object(obj))
                        &&& final(self).code() == old(self).code()
                    },
                }
            }),
    {
        let ghost s0 = *self;
        proof {
            lemma_grows_refl(s0);
        }
        let last = self.frames.len() - 1;
        let (is_local, local_idx) = self.resolve_local(last);
        proof {
            lemma_parse_grows(s0, s0, *self);
        }
        if is_local {
            return (OpCode::OpGetLocal, OpCode::OpSetLocal, local_idx);
        }
        let ghost s1 = *self;
        let (found, upvalue_idx) = self.resolve_upvalue(last);
        proof {
            lemma_keeps_grows(s0, s1, *self);
        }
        if found {
            return (OpCode::OpGetUpvalue, OpCode::OpSetUpvalue, upvalue_idx);
        }
        let ghost s2 = *self;
        let global_idx = self.identifier_constant(vm);
        proof {
            assert(self.code().subrange(0, s2.code().len() as int) =~= s2.code());
            lemma_append_grows(s0, s2, *self);
        }
        (OpCode::OpGetGlobal, OpCode::OpSetGlobal, global_idx)
    }

    /// The value given for the number literal that starts at byte `start`.
    pub fn number_value(&self, start: usize) -> (r: Option<u64>)
        ensures
            r == number_at(self.numbers@, start),
    {
        let mut i: usize = 0;
        proof {
            assert(self.numbers@.subrange(0, self.numbers@.len() as int) =~= self.numbers@);
        }
        while i < self.numbers.len()
            invariant
                i <= self.numbers@.len(),
                number_at(self.numbers@, start) == number_at(self.numbers@.subrange(i as int, self.numbers@.len() as int), start),
            decreases self.numbers@.len() - i,
        {
            let (s, bits) = self.numbers[i];
            let ghost rest = self.numbers@.subrange(i as int, self.numbers@.len() as int);
            proof {
                assert(rest.drop_first() =~= self.numbers@.subrange(i + 1, self.numbers@.len() as int));
                assert(rest[0] == self.numbers@[i as int]);
            }
            if s == start {
                return Some(bits);
            }
            i = i + 1;
        }
        proof {
            assert(self.numbers@.subrange(i as int, self.numbers@.len() as int).len() == 0);
        }
        None
    }

    /// Compiles a number literal: loads the value given for it, or reports a literal
    /// without one.
    pub(super) fn number(&mut self)
        requires
            old(self).wf(),
        ensures
            final(self).wf(),
            keeps_locals(*old(self), *final(self)),
            match number_at(old(self).numbers@, old(self).parser.previous_token.start) {
                Some(bits) => Compiler::loads_constant(*old(self), *final(self), Value::Number(bits)),
                None => final(self).frames == old(self).frames && final(self).parser@ == report(
                    old(self).parser@,
                    old(self).parser.previous_token,
                    "Expected a number value."@,
                ),
            },
    {
        let ghost s0 = *self;
        proof {
            lemma_grows_refl(s0);
        }
        let token = self.parser.previous_token;
        match self.number_value(token.start) {
            Some(bits) => {
                self.emit_constant(Value::Number(bits));
                proof {
                    assert(self.code().subrange(0, s0.code().len() as int) =~= s0.code());
                    lemma_append_grows(s0, s0, *self);
                }
            },
            None => {
                self.error_at(token, "Expected a number value.");
                proof {
                    lemma_parse_grows(s0, s0, *self);
                }
            },
        }
    }

    /// Compiles a string literal: interns its text and loads it.
    pub(super) fn string(&mut self, vm: &mut Vm)
        requires
            old(self).wf(),
            old(self).parser.previous_token.token_type == TokenType::String,
        ensures
            final(self).wf(),
            keeps_locals(*old(self), *final(self)),
            ({
                let t = old(self).parser.previous_token;
                let (v, r) = intern_spec(old(vm)@, string_text(old(self).bytes(), t.start as int, t.length as int));
                &&& final(vm)@ == v
                &&& Compiler::loads_constant(*old(self), *final(self), Value::Object(r))
            }),
    {
        let ghost s0 = *self;
        proof {
            lemma_grows_refl(s0);
        }
        let token = self.parser.previous_token;
        let lexeme = self.parser.scanner.get_lexeme(token);
        let ghost b = lexeme.spec_bytes();
        let n = lexeme.len();
        proof {
            assert(quoted(self.bytes(), token));
            assert(token_in(self.bytes(), token));
            assert(valid_utf8(b));
            assert(b[n - 1] == 34);
            is_char_boundary_iff_not_is_continuation_byte(b, n - 1);
            valid_utf8_split(b, n - 1);
        }
        let (front, _) = lexeme.split_at(n - 1);
        let ghost fb = front.spec_bytes();
        proof {
            assert(fb =~= b.subrange(0, n - 1));
            assert(fb[0] == 34);
            reveal_with_fuel(is_char_boundary, 2);
            assert(length_of_first_scalar(fb) == 1);
            assert(is_char_boundary(fb, 1));
        }
        let (_, body) = front.split_at(1);
        proof {
            assert(body.spec_bytes() =~= self.bytes().subrange(token.start + 1, token.start + token.length - 1));
            encode_utf8_decode_utf8(body@);
        }
        let r = vm.allocate_string(body);
        self.emit_constant(Value::Object(r));
        proof {
            assert(self.code().subrange(0, s0.code().len() as int) =~= s0.code());
            lemma_append_grows(s0, s0, *self);
        }
    }

    /// Compiles `nil`, `true` or `false`.
    pub(super) fn literal(&mut self)
        requires
            old(self).wf(),
            old(self).parser.previous_token.token_type == TokenType::Nil
                || old(self).parser.previous_token.token_type == TokenType::True
                || old(self).parser.previous_token.token_type == TokenType::False,
        ensures
            final(self).wf(),
            keeps_locals(*old(self), *final(self)),
            Compiler::emits(
                *old(self),
                *final(self),
                seq![op_byte(literal_op(old(self).parser.previous_token.token_type))],
            ),
    {
        let ghost s0 = *self;
        proof {
            lemma_grows_refl(s0);
        }
        let op = match self.parser.previous_token.token_type {
            TokenType::Nil => OpCode::OpNil,
            TokenType::True => OpCode::OpTrue,
            _ => OpCode::OpFalse,
        };
        self.emit_byte(op.to_byte());
        proof {
            assert(self.code().subrange(0, s0.code().len() as int) =~= s0.code());
            lemma_append_grows(s0, s0, *self);
        }
    }

    /// Compiles the rest of `name++` or `name--`: leaves the old value and stores the
    /// new one.
    pub(super) fn postfix_(&mut self, get_op: OpCode, set_op: OpCode, op: OpCode, arg: u8)
        requires
            old(self).wf(),
        ensures
            final(self).wf(),
            keeps_locals(*old(self), *final(self)),
            ({
                let cs = old(self).chunk_view().constants;
                &&& final(self).chunk_view().constants == constants_after(cs, Value::Number(ONE_BITS))
                &&& final(self).code() == old(self).code() + seq![
                    op_byte(get_op),
                    arg,
                    op_byte(OpCode::OpDup),
                    op_byte(OpCode::OpConstant),
                    constant_index(cs, Value::Number(ONE_BITS)),
                    op_byte(op),
                    op_byte(set_op),
                    arg,
                    op_byte(OpCode::OpPop),
                ]
            }),
    {
        let ghost s0 = *self;
        proof {
            lemma_grows_refl(s0);
        }
        self.emit_bytes(get_op.to_byte(), arg);
        self.emit_byte(OpCode::OpDup.to_byte());
        self.emit_constant(Value::Number(ONE_BITS));
        self.emit_byte(op.to_byte());
        self.emit_bytes(set_op.to_byte(), arg);
        self.emit_byte(OpCode::OpPop.to_byte());
        proof {
            let idx = constant_index(s0.chunk_view().constants, Value::Number(ONE_BITS));
            assert(self.code() =~= s0.code() + seq![
                op_byte(get_op),
                arg,
                op_byte(OpCode::OpDup),
                op_byte(OpCode::OpConstant),
                idx,
                op_byte(op),
                op_byte(set_op),
                arg,
                op_byte(OpCode::OpPop),
            ]);
            assert(self.code().subrange(0, s0.code().len() as int) =~= s0.code());
            lemma_append_grows(s0, s0, *self);
        }
    }
}

} // verus!
