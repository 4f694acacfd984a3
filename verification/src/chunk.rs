use vstd::prelude::*;
use crate::value::Value;

verus! {

// ── OpCode ───────────────────────────────────────────────────────────────────

/// The instructions of the virtual machine.
#[derive(Debug, Clone, Copy, PartialEq, Eq, Structural)]
pub enum OpCode {
    OpReturn,
    OpConstant,
    OpNegate,
    OpAdd,
    OpSubtract,
    OpMultiply,
    OpDivide,
    OpNil,
    OpTrue,
    OpFalse,
    OpNot,
    OpEqual,
    OpGreater,
    OpLess,
    OpPrint,
    OpPop,
    OpDefineGlobal,
    OpGetGlobal,
    OpSetGlobal,
    OpGetLocal,
    OpSetLocal,
    OpPopN,
    OpJumpIfFalse,
    OpJump,
    OpLoop,
    OpDup,
    OpYield,
    OpCall,
    OpClosure,
    OpGetUpvalue,
    OpSetUpvalue,
    OpArray,
    OpMakeArray,
    OpLen,
    OpGetIndex,
    OpSetIndex,
}

/// How many opcodes there are; they are numbered from 0.
pub const OPCODE_COUNT: u8 = 36;

/// The byte that encodes an opcode.
pub open spec fn op_byte(op: OpCode) -> u8 {
    match op {
        OpCode::OpReturn => 0,
        OpCode::OpConstant => 1,
        OpCode::OpNegate => 2,
        OpCode::OpAdd => 3,
        OpCode::OpSubtract => 4,
        OpCode::OpMultiply => 5,
        OpCode::OpDivide => 6,
        OpCode::OpNil => 7,
        OpCode::OpTrue => 8,
        OpCode::OpFalse => 9,
        OpCode::OpNot => 10,
        OpCode::OpEqual => 11,
        OpCode::OpGreater => 12,
        OpCode::OpLess => 13,
        OpCode::OpPrint => 14,
        OpCode::OpPop => 15,
        OpCode::OpDefineGlobal => 16,
        OpCode::OpGetGlobal => 17,
        OpCode::OpSetGlobal => 18,
        OpCode::OpGetLocal => 19,
        OpCode::OpSetLocal => 20,
        OpCode::OpPopN => 21,
        OpCode::OpJumpIfFalse => 22,
        OpCode::OpJump => 23,
        OpCode::OpLoop => 24,
        OpCode::OpDup => 25,
        OpCode::OpYield => 26,
        OpCode::OpCall => 27,
        OpCode::OpClosure => 28,
        OpCode::OpGetUpvalue => 29,
        OpCode::OpSetUpvalue => 30,
        OpCode::OpArray => 31,
        OpCode::OpMakeArray => 32,
        OpCode::OpLen => 33,
        OpCode::OpGetIndex => 34,
        OpCode::OpSetIndex => 35,
    }
}

/// The opcode that a byte encodes, if any.
pub open spec fn decode_op(b: u8) -> Option<OpCode> {
    if b == 0 {
        Some(OpCode::OpReturn)
    } else if b == 1 {
        Some(OpCode::OpConstant)
    } else if b == 2 {
        Some(OpCode::OpNegate)
    } else if b == 3 {
        Some(OpCode::OpAdd)
    } else if b == 4 {
        Some(OpCode::OpSubtract)
    } else if b == 5 {
        Some(OpCode::OpMultiply)
    } else if b == 6 {
        Some(OpCode::OpDivide)
    } else if b == 7 {
        Some(OpCode::OpNil)
    } else if b == 8 {
        Some(OpCode::OpTrue)
    } else if b == 9 {
        Some(OpCode::OpFalse)
    } else if b == 10 {
        Some(OpCode::OpNot)
    } else if b == 11 {
        Some(OpCode::OpEqual)
    } else if b == 12 {
        Some(OpCode::OpGreater)
    } else if b == 13 {
        Some(OpCode::OpLess)
    } else if b == 14 {
        Some(OpCode::OpPrint)
    } else if b == 15 {
        Some(OpCode::OpPop)
    } else if b == 16 {
        Some(OpCode::OpDefineGlobal)
    } else if b == 17 {
        Some(OpCode::OpGetGlobal)
    } else if b == 18 {
        Some(OpCode::OpSetGlobal)
    } else if b == 19 {
        Some(OpCode::OpGetLocal)
    } else if b == 20 {
        Some(OpCode::OpSetLocal)
    } else if b == 21 {
        Some(OpCode::OpPopN)
    } else if b == 22 {
        Some(OpCode::OpJumpIfFalse)
    } else if b == 23 {
        Some(OpCode::OpJump)
    } else if b == 24 {
        Some(OpCode::OpLoop)
    } else if b == 25 {
        Some(OpCode::OpDup)
    } else if b == 26 {
        Some(OpCode::OpYield)
    } else if b == 27 {
        Some(OpCode::OpCall)
    } else if b == 28 {
        Some(OpCode::OpClosure)
    } else if b == 29 {
        Some(OpCode::OpGetUpvalue)
    } else if b == 30 {
        Some(OpCode::OpSetUpvalue)
    } else if b == 31 {
        Some(OpCode::OpArray)
    } else if b == 32 {
        Some(OpCode::OpMakeArray)
    } else if b == 33 {
        Some(OpCode::OpLen)
    } else if b == 34 {
        Some(OpCode::OpGetIndex)
    } else if b == 35 {
        Some(OpCode::OpSetIndex)
    } else {
        None
    }
}

/// Decoding undoes encoding.
pub proof fn lemma_decode_encode(op: OpCode)
    ensures
        decode_op(op_byte(op)) == Some(op),
{
}

/// Encoding undoes decoding.
pub proof fn lemma_encode_decode(b: u8)
    ensures
        decode_op(b) matches Some(op) ==> op_byte(op) == b,
        decode_op(b) is None <==> b >= OPCODE_COUNT,
{
}

impl OpCode {
    /// The byte that encodes this opcode.
    pub fn to_byte(self) -> (b: u8)
        ensures
            b == op_byte(self),
    {
        match self {
            OpCode::OpReturn => 0,
            OpCode::OpConstant => 1,
            OpCode::OpNegate => 2,
            OpCode::OpAdd => 3,
            OpCode::OpSubtract => 4,
            OpCode::OpMultiply => 5,
            OpCode::OpDivide => 6,
            OpCode::OpNil => 7,
            OpCode::OpTrue => 8,
            OpCode::OpFalse => 9,
            OpCode::OpNot => 10,
            OpCode::OpEqual => 11,
            OpCode::OpGreater => 12,
            OpCode::OpLess => 13,
            OpCode::OpPrint => 14,
            OpCode::OpPop => 15,
            OpCode::OpDefineGlobal => 16,
            OpCode::OpGetGlobal => 17,
            OpCode::OpSetGlobal => 18,
            OpCode::OpGetLocal => 19,
            OpCode::OpSetLocal => 20,
            OpCode::OpPopN => 21,
            OpCode::OpJumpIfFalse => 22,
            OpCode::OpJump => 23,
            OpCode::OpLoop => 24,
            OpCode::OpDup => 25,
            OpCode::OpYield => 26,
            OpCode::OpCall => 27,
            OpCode::OpClosure => 28,
            OpCode::OpGetUpvalue => 29,
            OpCode::OpSetUpvalue => 30,
            OpCode::OpArray => 31,
            OpCode::OpMakeArray => 32,
            OpCode::OpLen => 33,
            OpCode::OpGetIndex => 34,
            OpCode::OpSetIndex => 35,
        }
    }

    /// The opcode that `byte` encodes; an unknown byte gives it back as the error.
    pub fn try_from(byte: u8) -> (r: Result<OpCode, u8>)
        ensures
            r == (match decode_op(byte) {
                Some(op) => Ok(op),
                None => Err(byte),
            }),
    {
        if byte == 0 {
            Ok(OpCode::OpReturn)
        } else if byte == 1 {
            Ok(OpCode::OpConstant)
        } else if byte == 2 {
            Ok(OpCode::OpNegate)
        } else if byte == 3 {
            Ok(OpCode::OpAdd)
        } else if byte == 4 {
            Ok(OpCode::OpSubtract)
        } else if byte == 5 {
            Ok(OpCode::OpMultiply)
        } else if byte == 6 {
            Ok(OpCode::OpDivide)
        } else if byte == 7 {
            Ok(OpCode::OpNil)
        } else if byte == 8 {
            Ok(OpCode::OpTrue)
        } else if byte == 9 {
            Ok(OpCode::OpFalse)
        } else if byte == 10 {
            Ok(OpCode::OpNot)
        } else if byte == 11 {
            Ok(OpCode::OpEqual)
        } else if byte == 12 {
            Ok(OpCode::OpGreater)
        } else if byte == 13 {
            Ok(OpCode::OpLess)
        } else if byte == 14 {
            Ok(OpCode::OpPrint)
        } else if byte == 15 {
            Ok(OpCode::OpPop)
        } else if byte == 16 {
            Ok(OpCode::OpDefineGlobal)
        } else if byte == 17 {
            Ok(OpCode::OpGetGlobal)
        } else if byte == 18 {
            Ok(OpCode::OpSetGlobal)
        } else if byte == 19 {
            Ok(OpCode::OpGetLocal)
        } else if byte == 20 {
            Ok(OpCode::OpSetLocal)
        } else if byte == 21 {
            Ok(OpCode::OpPopN)
        } else if byte == 22 {
            Ok(OpCode::OpJumpIfFalse)
        } else if byte == 23 {
            Ok(OpCode::OpJump)
        } else if byte == 24 {
            Ok(OpCode::OpLoop)
        } else if byte == 25 {
            Ok(OpCode::OpDup)
        } else if byte == 26 {
            Ok(OpCode::OpYield)
        } else if byte == 27 {
            Ok(OpCode::OpCall)
        } else if byte == 28 {
            Ok(OpCode::OpClosure)
        } else if byte == 29 {
            Ok(OpCode::OpGetUpvalue)
        } else if byte == 30 {
            Ok(OpCode::OpSetUpvalue)
        } else if byte == 31 {
            Ok(OpCode::OpArray)
        } else if byte == 32 {
            Ok(OpCode::OpMakeArray)
        } else if byte == 33 {
            Ok(OpCode::OpLen)
        } else if byte == 34 {
            Ok(OpCode::OpGetIndex)
        } else if byte == 35 {
            Ok(OpCode::OpSetIndex)
        } else {
            Err(byte)
        }
    }
}

// ── Chunk ────────────────────────────────────────────────────────────────────

/// The key under which a constant is shared: numbers by their bits, objects by their
/// heap index; other values are never shared.
pub open spec fn constant_key(v: Value) -> Option<(u8, u64)> {
    match v {
        Value::Number(n) => Some((0u8, n)),
        Value::Object(r) => Some((1u8, r as u64)),
        _ => None,
    }
}

/// The first index of `constants` whose key is `key`, if any.
pub open spec fn first_with_key(constants: Seq<Value>, key: (u8, u64)) -> Option<int>
    decreases constants.len(),
{
    if constants.len() == 0 {
        None
    } else {
        match first_with_key(constants.drop_last(), key) {
            Some(i) => Some(i),
            None => if constant_key(constants.last()) == Some(key) {
                Some(constants.len() - 1)
            } else {
                None
            },
        }
    }
}

/// The most constants a chunk holds: an instruction names one by a single byte.
pub const MAX_CONSTANTS: usize = 256;

/// Adding `v` to the constant pool `cs`: the new pool and the index that names `v` in
/// it. A number or an object already in the pool is named by its first occurrence;
/// anything else is added at the end, unless the pool is full, when nothing is given.
pub open spec fn write_constant_spec(cs: Seq<Value>, v: Value) -> Option<(Seq<Value>, int)> {
    let fresh = if cs.len() < MAX_CONSTANTS {
        Some((cs.push(v), cs.len() as int))
    } else {
        None
    };
    match constant_key(v) {
        Some(k) => match first_with_key(cs, k) {
            Some(i) => Some((cs, i)),
            None => fresh,
        },
        None => fresh,
    }
}

/// The bytecode of a function: its instructions, its constant pool and, for every
/// byte, the source line it came from.
pub struct Chunk {
    code: Vec<u8>,
    constants: Vec<Value>,
    lines: Vec<usize>,
}

pub struct ChunkView {
    pub code: Seq<u8>,
    pub constants: Seq<Value>,
    pub lines: Seq<usize>,
}

impl View for Chunk {
    type V = ChunkView;

    closed spec fn view(&self) -> ChunkView {
        ChunkView { code: self.code@, constants: self.constants@, lines: self.lines@ }
    }
}

impl Chunk {
    /// One line per byte of code, and at most `MAX_CONSTANTS` constants.
    pub open spec fn wf(&self) -> bool {
        &&& self@.code.len() == self@.lines.len()
        &&& self@.constants.len() <= MAX_CONSTANTS
    }

    pub fn new() -> (c: Chunk)
        ensures
            c.wf(),
            c@.code == Seq::<u8>::empty(),
            c@.constants == Seq::<Value>::empty(),
            c@.lines == Seq::<usize>::empty(),
    {
        Chunk { code: Vec::new(), constants: Vec::new(), lines: Vec::new() }
    }

    /// The number of bytes of code.
    pub fn count(&self) -> (n: usize)
        ensures
            n == self@.code.len(),
    {
        self.code.len()
    }

    /// Overwrites the byte at `offset`.
    pub fn write_byte_at(&mut self, offset: usize, byte: u8)
        requires
            offset < old(self)@.code.len(),
        ensures
            final(self)@ == (ChunkView { code: old(self)@.code.update(offset as int, byte), ..old(self)@ }),
    {
        self.code.set(offset, byte);
    }

    /// Appends a byte of code that came from `line`.
    pub fn write_byte(&mut self, byte: u8, line: usize)
        ensures
            final(self)@ == (ChunkView {
                code: old(self)@.code.push(byte),
                lines: old(self)@.lines.push(line),
                ..old(self)@
            }),
    {
        self.code.push(byte);
        self.lines.push(line);
    }

    /// Adds a constant and gives its index. A number or an object that is already in the
    /// pool is not added again: the index of its first occurrence is given. When the pool
    /// is full and the value is not shared, nothing changes and nothing is given.
    pub fn write_constant(&mut self, value: Value) -> (idx: Option<u8>)
        requires
            old(self).wf(),
        ensures
            final(self).wf(),
            match write_constant_spec(old(self)@.constants, value) {
                Some((cs, i)) => idx == Some(i as u8) && final(self)@ == (ChunkView { constants: cs, ..old(self)@ }),
                None => idx is None && final(self)@ == old(self)@,
            },
    {
        let key: Option<(u8, u64)> = match value {
            Value::Number(n) => Some((0u8, n)),
            Value::Object(r) => Some((1u8, r as u64)),
            _ => None,
        };
        if let Some(k) = key {
            let mut i: usize = 0;
            while i < self.constants.len()
                invariant
                    i <= self.constants@.len(),
                    self@ == old(self)@,
                    self.wf(),
                    key == constant_key(value),
                    key == Some(k),
                    first_with_key(self.constants@.take(i as int), k) is None,
                decreases self.constants@.len() - i,
            {
                let c = self.constants[i];
                let ck: Option<(u8, u64)> = match c {
                    Value::Number(n) => Some((0u8, n)),
                    Value::Object(r) => Some((1u8, r as u64)),
                    _ => None,
                };
                proof {
                    assert(self.constants@.take(i + 1).drop_last() =~= self.constants@.take(i as int));
                }
                if ck == Some(k) {
                    proof {
                        assert(constant_key(self.constants@[i as int]) == Some(k));
                        lemma_first_with_key_prefix(self.constants@, i as int + 1, k);
                        assert(first_with_key(old(self)@.constants, k) == Some(i as int));
                    }
                    return Some(i as u8);
                }
                i = i + 1;
            }
            proof {
                assert(self.constants@.take(i as int) =~= self.constants@);
            }
        }
        if self.constants.len() >= MAX_CONSTANTS {
            return None;
        }
        let idx = self.constants.len() as u8;
        self.constants.push(value);
        Some(idx)
    }

    /// The byte at `offset`.
    pub fn read_byte(&self, offset: usize) -> (b: u8)
        requires
            offset < self@.code.len(),
        ensures
            b == self@.code[offset as int],
    {
        self.code[offset]
    }

    /// The constant at `index`.
    pub fn read_constant(&self, index: usize) -> (v: Value)
        requires
            index < self@.constants.len(),
        ensures
            v == self@.constants[index as int],
    {
        self.constants[index]
    }

    /// The number of constants.
    pub fn constant_count(&self) -> (n: usize)
        ensures
            n == self@.constants.len(),
    {
        self.constants.len()
    }

    /// The source line of the byte at `offset`.
    pub fn get_line(&self, offset: usize) -> (l: usize)
        requires
            offset < self@.lines.len(),
        ensures
            l == self@.lines[offset as int],
    {
        self.lines[offset]
    }
}

/// A prefix that holds a key holds its first occurrence.
pub proof fn lemma_first_with_key_prefix(s: Seq<Value>, n: int, k: (u8, u64))
    requires
        0 < n <= s.len(),
        first_with_key(s.take(n - 1), k) is None,
        constant_key(s[n - 1]) == Some(k),
    ensures
        first_with_key(s, k) == Some(n - 1),
    decreases s.len(),
{
    if n == s.len() {
        assert(s.take(n - 1) =~= s.drop_last());
    } else {
        assert(s.drop_last().take(n - 1) =~= s.take(n - 1));
        assert(s.drop_last()[n - 1] == s[n - 1]);
        lemma_first_with_key_prefix(s.drop_last(), n, k);
    }
}

} // verus!
