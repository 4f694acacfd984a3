use vstd::prelude::*;
use crate::chunk::{Chunk, ChunkView, OpCode, decode_op};

verus! {

/// What follows an opcode in the code: nothing, the index of a constant, a one-byte
/// operand, or a jump distance (shown as the offset it leads to).
#[derive(Debug, Clone, Copy, PartialEq, Eq, Structural)]
pub enum Operand {
    Simple,
    Constant(u8),
    Byte(u8),
    Jump(usize),
}

/// One line of a disassembly: the instruction's offset, its source line (none when it
/// is the line of the previous byte), its opcode and its operand.
#[derive(Debug, Clone, Copy, PartialEq, Eq, Structural)]
pub struct Listed {
    pub offset: usize,
    pub line: Option<usize>,
    pub op: OpCode,
    pub operand: Operand,
}

/// Why code cannot be disassembled: a byte that is no opcode, or an instruction cut
/// short by the end of the code.
#[derive(Debug, Clone, Copy, PartialEq, Eq, Structural)]
pub enum DisassemblyError {
    UnknownOpcode(u8),
    Truncated,
}

/// The kind of operand an opcode takes: 0 none, 1 a constant, 2 a byte, 3 a forward
/// jump, 4 a backward jump.
pub open spec fn operand_kind(op: OpCode) -> int {
    match op {
        OpCode::OpConstant | OpCode::OpDefineGlobal | OpCode::OpGetGlobal | OpCode::OpSetGlobal
        | OpCode::OpClosure => 1,
        OpCode::OpGetLocal | OpCode::OpSetLocal | OpCode::OpCall | OpCode::OpPopN | OpCode::OpYield
        | OpCode::OpGetUpvalue | OpCode::OpSetUpvalue | OpCode::OpArray => 2,
        OpCode::OpJumpIfFalse | OpCode::OpJump => 3,
        OpCode::OpLoop => 4,
        _ => 0,
    }
}

/// The number of bytes of an instruction with opcode `op`.
pub open spec fn instruction_len(op: OpCode) -> int {
    let k = operand_kind(op);
    if k == 0 {
        1
    } else if k <= 2 {
        2
    } else {
        3
    }
}

/// The offset a jump instruction at `offset` with distance `jump` leads to, in the
/// arithmetic of machine offsets.
pub open spec fn jump_target(offset: int, jump: int, forward: bool) -> int {
    let t = if forward {
        offset + 3 + jump
    } else {
        offset + 3 - jump
    };
    if t < 0 {
        t + usize::MAX + 1
    } else if t > usize::MAX {
        t - usize::MAX - 1
    } else {
        t
    }
}

/// The instruction at `offset` of `code`: its opcode, operand and the offset after it.
pub open spec fn instruction_at(code: Seq<u8>, offset: int) -> Result<(OpCode, Operand, int), DisassemblyError> {
    match decode_op(code[offset]) {
        None => Err(DisassemblyError::UnknownOpcode(code[offset])),
        Some(op) => {
            let n = instruction_len(op);
            if offset + n > code.len() {
                Err(DisassemblyError::Truncated)
            } else {
                let k = operand_kind(op);
                let operand = if k == 0 {
                    Operand::Simple
                } else if k == 1 {
                    Operand::Constant(code[offset + 1])
                } else if k == 2 {
                    Operand::Byte(code[offset + 1])
                } else {
                    Operand::Jump(
                        jump_target(offset, code[offset + 1] * 256 + code[offset + 2], k == 3) as usize,
                    )
                };
                Ok((op, operand, offset + n))
            }
        },
    }
}

/// The line shown for the byte at `offset`: none when it is that of the byte before.
pub open spec fn line_marker(lines: Seq<usize>, offset: int) -> Option<usize> {
    if offset > 0 && lines[offset] == lines[offset - 1] {
        None
    } else {
        Some(lines[offset])
    }
}

/// The disassembly of a chunk's code from `offset` on, or the first error met.
pub open spec fn listing(c: ChunkView, offset: int) -> Result<Seq<Listed>, DisassemblyError>
    decreases c.code.len() - offset,
{
    if offset < 0 || offset >= c.code.len() {
        Ok(Seq::empty())
    } else {
        match instruction_at(c.code, offset) {
            Err(e) => Err(e),
            Ok((op, operand, next)) => if next <= offset {
                Ok(Seq::empty())
            } else {
                match listing(c, next) {
                    Ok(rest) => Ok(
                        seq![Listed { offset: offset as usize, line: line_marker(c.lines, offset), op, operand }]
                            + rest,
                    ),
                    Err(e) => Err(e),
                }
            },
        }
    }
}

/// The name an opcode is listed under.
pub open spec fn op_name(op: OpCode) -> Seq<char> {
    match op {
        OpCode::OpReturn => "OP_RETURN"@,
        OpCode::OpConstant => "OP_CONSTANT"@,
        OpCode::OpNegate => "OP_NEGATE"@,
        OpCode::OpAdd => "OP_ADD"@,
        OpCode::OpSubtract => "OP_SUBTRACT"@,
        OpCode::OpMultiply => "OP_MULTIPLY"@,
        OpCode::OpDivide => "OP_DIVIDE"@,
        OpCode::OpNil => "OP_NIL"@,
        OpCode::OpTrue => "OP_TRUE"@,
        OpCode::OpFalse => "OP_FALSE"@,
        OpCode::OpNot => "OP_NOT"@,
        OpCode::OpEqual => "OP_EQUAL"@,
        OpCode::OpGreater => "OP_GREATER"@,
        OpCode::OpLess => "OP_LESS"@,
        OpCode::OpPrint => "OP_PRINT"@,
        OpCode::OpPop => "OP_POP"@,
        OpCode::OpDefineGlobal => "OP_DEFINE_GLOBAL"@,
        OpCode::OpGetGlobal => "OP_GET_GLOBAL"@,
        OpCode::OpSetGlobal => "OP_SET_GLOBAL"@,
        OpCode::OpGetLocal => "OP_GET_LOCAL"@,
        OpCode::OpSetLocal => "OP_SET_LOCAL"@,
        OpCode::OpPopN => "OP_POP_N"@,
        OpCode::OpJumpIfFalse => "OP_JUMP_IF_FALSE"@,
        OpCode::OpJump => "OP_JUMP"@,
        OpCode::OpLoop => "OP_LOOP"@,
        OpCode::OpDup => "OP_DUP"@,
        OpCode::OpYield => "OP_YIELD"@,
        OpCode::OpCall => "OP_CALL"@,
        OpCode::OpClosure => "OP_CLOSURE"@,
        OpCode::OpGetUpvalue => "OP_GET_UPVALUE"@,
        OpCode::OpSetUpvalue => "OP_SET_UPVALUE"@,
        OpCode::OpArray => "OP_ARRAY"@,
        OpCode::OpMakeArray => "OP_MAKE_ARRAY"@,
        OpCode::OpLen => "OP_LEN"@,
        OpCode::OpGetIndex => "OP_GET_INDEX"@,
        OpCode::OpSetIndex => "OP_SET_INDEX"@,
    }
}

impl OpCode {
    /// The name this opcode is listed under.
    pub fn name(&self) -> (s: &'static str)
        ensures
            s@ == op_name(*self),
    {
        match self {
            OpCode::OpReturn => "OP_RETURN",
            OpCode::OpConstant => "OP_CONSTANT",
            OpCode::OpNegate => "OP_NEGATE",
            OpCode::OpAdd => "OP_ADD",
            OpCode::OpSubtract => "OP_SUBTRACT",
            OpCode::OpMultiply => "OP_MULTIPLY",
            OpCode::OpDivide => "OP_DIVIDE",
            OpCode::OpNil => "OP_NIL",
            OpCode::OpTrue => "OP_TRUE",
            OpCode::OpFalse => "OP_FALSE",
            OpCode::OpNot => "OP_NOT",
            OpCode::OpEqual => "OP_EQUAL",
            OpCode::OpGreater => "OP_GREATER",
            OpCode::OpLess => "OP_LESS",
            OpCode::OpPrint => "OP_PRINT",
            OpCode::OpPop => "OP_POP",
            OpCode::OpDefineGlobal => "OP_DEFINE_GLOBAL",
            OpCode::OpGetGlobal => "OP_GET_GLOBAL",
            OpCode::OpSetGlobal => "OP_SET_GLOBAL",
            OpCode::OpGetLocal => "OP_GET_LOCAL",
            OpCode::OpSetLocal => "OP_SET_LOCAL",
            OpCode::OpPopN => "OP_POP_N",
            OpCode::OpJumpIfFalse => "OP_JUMP_IF_FALSE",
            OpCode::OpJump => "OP_JUMP",
            OpCode::OpLoop => "OP_LOOP",
            OpCode::OpDup => "OP_DUP",
            OpCode::OpYield => "OP_YIELD",
            OpCode::OpCall => "OP_CALL",
            OpCode::OpClosure => "OP_CLOSURE",
            OpCode::OpGetUpvalue => "OP_GET_UPVALUE",
            OpCode::OpSetUpvalue => "OP_SET_UPVALUE",
            OpCode::OpArray => "OP_ARRAY",
            OpCode::OpMakeArray => "OP_MAKE_ARRAY",
            OpCode::OpLen => "OP_LEN",
            OpCode::OpGetIndex => "OP_GET_INDEX",
            OpCode::OpSetIndex => "OP_SET_INDEX",
        }
    }

    /// The kind of operand this opcode takes (see `operand_kind`).
    fn operand_kind(&self) -> (k: u8)
        ensures
            k == operand_kind(*self),
    {
        match self {
            OpCode::OpConstant | OpCode::OpDefineGlobal | OpCode::OpGetGlobal | OpCode::OpSetGlobal
            | OpCode::OpClosure => 1,
            OpCode::OpGetLocal | OpCode::OpSetLocal | OpCode::OpCall | OpCode::OpPopN | OpCode::OpYield
            | OpCode::OpGetUpvalue | OpCode::OpSetUpvalue | OpCode::OpArray => 2,
            OpCode::OpJumpIfFalse | OpCode::OpJump => 3,
            OpCode::OpLoop => 4,
            _ => 0,
        }
    }
}

impl Chunk {
    /// Decodes the instruction at `offset`: its opcode, its operand and the offset of
    /// the next instruction.
    pub fn disassemble_instruction(&self, offset: usize) -> (r: Result<(OpCode, Operand, usize), DisassemblyError>)
        requires
            offset < self@.code.len(),
        ensures
            match instruction_at(self@.code, offset as int) {
                Ok((op, operand, next)) => r == Ok::<(OpCode, Operand, usize), DisassemblyError>((op, operand, next as usize)),
                Err(e) => r == Err::<(OpCode, Operand, usize), DisassemblyError>(e),
            },
    {
        let byte = self.read_byte(offset);
        let op = match OpCode::try_from(byte) {
            Ok(op) => op,
            Err(b) => {
                return Err(DisassemblyError::UnknownOpcode(b));
            },
        };
        let kind = op.operand_kind();
        let n = self.count();
        if kind == 0 {
            return Ok((op, Operand::Simple, offset + 1));
        }
        if n - offset < 2 {
            return Err(DisassemblyError::Truncated);
        }
        let first = self.read_byte(offset + 1);
        if kind == 1 {
            return Ok((op, Operand::Constant(first), offset + 2));
        }
        if kind == 2 {
            return Ok((op, Operand::Byte(first), offset + 2));
        }
        if n - offset < 3 {
            return Err(DisassemblyError::Truncated);
        }
        let second = self.read_byte(offset + 2);
        let jump = (first as usize) * 256 + second as usize;
        let target = if kind == 3 {
            (offset + 3).wrapping_add(jump)
        } else {
            (offset + 3).wrapping_sub(jump)
        };
        Ok((op, Operand::Jump(target), offset + 3))
    }

    /// The line shown for the byte at `offset`: none when it is that of the byte before.
    pub fn line_marker(&self, offset: usize) -> (r: Option<usize>)
        requires
            self.wf(),
            offset < self@.code.len(),
        ensures
            r == line_marker(self@.lines, offset as int),
    {
        let line = self.get_line(offset);
        if offset > 0 && line == self.get_line(offset - 1) {
            None
        } else {
            Some(line)
        }
    }

    /// The disassembly of the whole chunk, one entry per instruction, or the first error
    /// met.
    pub fn disassemble(&self) -> (r: Result<Vec<Listed>, DisassemblyError>)
        requires
            self.wf(),
        ensures
            match listing(self@, 0) {
                Ok(s) => r is Ok && r->Ok_0@ == s,
                Err(e) => r == Err::<Vec<Listed>, DisassemblyError>(e),
            },
    {
        let mut out: Vec<Listed> = Vec::new();
        let mut offset: usize = 0;
        let n = self.count();
        while offset < n
            invariant
                self.wf(),
                n == self@.code.len(),
                offset <= n,
                listing(self@, 0) == match listing(self@, offset as int) {
                    Ok(rest) => Ok(out@ + rest),
                    Err(e) => Err(e),
                },
            decreases n - offset,
        {
            let line = self.line_marker(offset);
            match self.disassemble_instruction(offset) {
                Ok((op, operand, next)) => {
                    let ghost before = out@;
                    out.push(Listed { offset, line, op, operand });
                    proof {
                        assert(next > offset);
                        match listing(self@, next as int) {
                            Ok(rest) => {
                                assert(out@ + rest =~= before + (seq![Listed { offset, line, op, operand }] + rest));
                            },
                            Err(e) => {},
                        }
                    }
                    offset = next;
                },
                Err(e) => {
                    return Err(e);
                },
            }
        }
        proof {
            assert(out@ + Seq::<Listed>::empty() =~= out@);
        }
        Ok(out)
    }
}

} // verus!
