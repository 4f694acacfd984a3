use vstd::prelude::*;
use vstd::utf8::{
    decode_utf8_encode_utf8, encode_utf8, is_char_boundary, is_char_boundary_iff_not_is_continuation_byte,
    length_of_first_scalar, valid_first_scalar, valid_utf8, valid_utf8_split,
};
use crate::chunk::{OpCode, constant_key, first_with_key, lemma_decode_encode, lemma_encode_decode, op_byte, write_constant_spec};
use crate::debug::{DisassemblyError, Operand, instruction_at};
use crate::compiler::parser::{
    ParserView, advance_spec, lemma_fetch_progress, progress_of, report, starts_statement, synchronize_spec,
};
use crate::native::native_table;
use crate::scanner::{
    char_width, comment_end, digits_end, is_alphanumeric_byte, lemma_char_step, lemma_comment_end_grows, rest_len,
    string_end,
    byte_at, identifier_end, is_alpha_byte, is_digit_byte, keyword_type, lex_token, mk_token, punctuation, skip_trivia,
};
use crate::token::TokenType;
use crate::value::{
    falsey,
    EXPONENT_BITS, FRACTION_BITS, MAGNITUDE_BITS, ObjData, ObjectView, SIGN_BIT, Value, is_nan_bits, negate_bits,
    number_eq, number_lt, order_key, values_equal,
};
use crate::vm::{
    Action, Instr, Pending, Reply, RuntimeError, VmView, current_chunk, decode_at, empty_vm, fail, find_global, find_interned,
    global_insert, global_value, intern_spec, interpret_spec, lemma_find_global_bound, lemma_find_interned_bound,
    resume_spec, set_ip, step_spec, with_natives,
};

verus! {

// ── Strings ──────────────────────────────────────────────────────────────────

/// A new object at the end of the heap does not make interning find an older entry.
pub proof fn lemma_find_interned_push(heap: Seq<ObjectView>, interned: Seq<usize>, text: Seq<char>, o: ObjectView)
    requires
        find_interned(heap, interned, text) is None,
        forall|k: int| 0 <= k < interned.len() ==> #[trigger] interned[k] < heap.len(),
    ensures
        find_interned(heap.push(o), interned, text) is None,
    decreases interned.len(),
{
    if interned.len() > 0 {
        lemma_find_interned_push(heap, interned.drop_last(), text, o);
        let r = interned.last();
        assert(interned[interned.len() - 1] < heap.len());
        assert(heap.push(o)[r as int] == heap[r as int]);
    }
}

/// Interning a text twice gives the same string object, which holds the text, and the
/// second time changes nothing: equal strings are one object.
pub proof fn law_intern_twice(v: VmView, text: Seq<char>)
    requires
        v.heap.len() < usize::MAX,
        forall|k: int| 0 <= k < v.interned.len() ==> #[trigger] v.interned[k] < v.heap.len(),
    ensures
        ({
            let (v1, r1) = intern_spec(v, text);
            let (v2, r2) = intern_spec(v1, text);
            &&& r2 == r1
            &&& v2 == v1
            &&& r1 < v1.heap.len()
            &&& v1.heap[r1 as int].data == ObjData::String(text)
        }),
{
    lemma_find_interned_bound(v.heap, v.interned, text);
    match find_interned(v.heap, v.interned, text) {
        Some(i) => {},
        None => {
            let o = ObjectView { data: ObjData::String(text), is_marked: false };
            let (v1, r1) = intern_spec(v, text);
            lemma_find_interned_push(v.heap, v.interned, text, o);
            assert(v1.interned.drop_last() =~= v.interned);
            assert(v1.heap[r1 as int] == o);
            assert(find_interned(v1.heap, v1.interned, text) == Some(v.interned.len() as int));
        },
    }
}

/// Every string object of the heap is interned, and the interned objects are string
/// objects with distinct texts: then a string object is the only one with its text.
pub open spec fn strings_interned(heap: Seq<ObjectView>, interned: Seq<usize>) -> bool {
    &&& forall|k: int| 0 <= k < interned.len() ==> #[trigger] interned[k] < heap.len() && heap[interned[k] as int].data is String
    &&& forall|r: int| 0 <= r < heap.len() && (#[trigger] heap[r]).data is String ==> exists|k: int| 0 <= k < interned.len() && interned[k] == r
    &&& forall|k1: int, k2: int|
        0 <= k1 < interned.len() && 0 <= k2 < interned.len() && heap[#[trigger] interned[k1] as int].data == heap[#[trigger] interned[k2] as int].data
            ==> interned[k1] == interned[k2]
}

/// `new` keeps the strings interned if `old` had them so (and room for one more object).
pub open spec fn keeps_interning(old: VmView, new: VmView) -> bool {
    strings_interned(old.heap, old.interned) && old.heap.len() < usize::MAX ==> strings_interned(new.heap, new.interned)
}

/// `new` keeps every object of `old`'s heap that is a string, where it was.
pub open spec fn keeps_strings(old: VmView, new: VmView) -> bool {
    &&& old.heap.len() <= new.heap.len()
    &&& forall|r: int| 0 <= r < old.heap.len() && (#[trigger] old.heap[r]).data is String ==> new.heap[r] == old.heap[r]
}

/// Two string objects are one object exactly when their texts are equal, so comparing
/// strings by identity compares their texts.
pub proof fn law_string_identity(heap: Seq<ObjectView>, interned: Seq<usize>, r1: int, r2: int)
    requires
        strings_interned(heap, interned),
        0 <= r1 < heap.len(),
        0 <= r2 < heap.len(),
        heap[r1].data is String,
        heap[r2].data is String,
    ensures
        (heap[r1].data == heap[r2].data) == (r1 == r2),
{
    let k1 = choose|k: int| 0 <= k < interned.len() && interned[k] == r1;
    let k2 = choose|k: int| 0 <= k < interned.len() && interned[k] == r2;
    assert(interned[k1] == r1);
    assert(interned[k2] == r2);
}

/// Interning no text makes no interned object.
pub proof fn lemma_find_interned_none(heap: Seq<ObjectView>, interned: Seq<usize>, text: Seq<char>, k: int)
    requires
        find_interned(heap, interned, text) is None,
        0 <= k < interned.len(),
        interned[k] < heap.len(),
    ensures
        heap[interned[k] as int].data != ObjData::String(text),
    decreases interned.len(),
{
    if k < interned.len() - 1 {
        assert(interned.drop_last()[k] == interned[k]);
        lemma_find_interned_none(heap, interned.drop_last(), text, k);
    }
}

/// A new object that is no string keeps the strings interned.
pub proof fn lemma_push_other(heap: Seq<ObjectView>, interned: Seq<usize>, o: ObjectView)
    requires
        strings_interned(heap, interned),
        !(o.data is String),
    ensures
        strings_interned(heap.push(o), interned),
{
    let h = heap.push(o);
    assert forall|k: int| 0 <= k < interned.len() implies #[trigger] interned[k] < h.len() && h[interned[k] as int].data is String by {
        assert(h[interned[k] as int] == heap[interned[k] as int]);
    }
    assert forall|r: int| 0 <= r < h.len() && (#[trigger] h[r]).data is String implies exists|k: int| 0 <= k < interned.len() && interned[k] == r by {
        assert(h[r] == heap[r]);
    }
    assert forall|k1: int, k2: int|
        0 <= k1 < interned.len() && 0 <= k2 < interned.len() && h[#[trigger] interned[k1] as int].data == h[#[trigger] interned[k2] as int].data
        implies interned[k1] == interned[k2] by {
        assert(h[interned[k1] as int] == heap[interned[k1] as int]);
        assert(h[interned[k2] as int] == heap[interned[k2] as int]);
    }
}

/// Changing an array object into another object that is no string keeps the strings
/// interned.
pub proof fn lemma_update_array(heap: Seq<ObjectView>, interned: Seq<usize>, r: int, o: ObjectView)
    requires
        strings_interned(heap, interned),
        0 <= r < heap.len(),
        heap[r].data is Array,
        !(o.data is String),
    ensures
        strings_interned(heap.update(r, o), interned),
{
    let h = heap.update(r, o);
    assert forall|k: int| 0 <= k < interned.len() implies #[trigger] interned[k] < h.len() && h[interned[k] as int].data is String by {
        assert(interned[k] != r);
    }
    assert forall|q: int| 0 <= q < h.len() && (#[trigger] h[q]).data is String implies exists|k: int| 0 <= k < interned.len() && interned[k] == q by {
        assert(q != r);
        assert(h[q] == heap[q]);
    }
    assert forall|k1: int, k2: int|
        0 <= k1 < interned.len() && 0 <= k2 < interned.len() && h[#[trigger] interned[k1] as int].data == h[#[trigger] interned[k2] as int].data
        implies interned[k1] == interned[k2] by {
        assert(interned[k1] != r);
        assert(interned[k2] != r);
    }
}

/// Interning keeps the strings interned.
pub proof fn lemma_intern_keeps(v: VmView, text: Seq<char>)
    requires
        strings_interned(v.heap, v.interned),
        v.heap.len() < usize::MAX,
    ensures
        strings_interned(intern_spec(v, text).0.heap, intern_spec(v, text).0.interned),
{
    if find_interned(v.heap, v.interned, text) is None {
        let o = ObjectView { data: ObjData::String(text), is_marked: false };
        let h = v.heap.push(o);
        let n = v.heap.len();
        let s = v.interned.push(n as usize);
        assert forall|k: int| 0 <= k < s.len() implies #[trigger] s[k] < h.len() && h[s[k] as int].data is String by {
            if k < v.interned.len() {
                assert(s[k] == v.interned[k]);
                assert(h[s[k] as int] == v.heap[s[k] as int]);
            }
        }
        assert forall|r: int| 0 <= r < h.len() && (#[trigger] h[r]).data is String implies exists|k: int| 0 <= k < s.len() && s[k] == r by {
            if r < n {
                assert(h[r] == v.heap[r]);
                let k = choose|k: int| 0 <= k < v.interned.len() && v.interned[k] == r;
                assert(s[k] == r);
            } else {
                assert(s[s.len() - 1] == r);
            }
        }
        assert forall|k1: int, k2: int|
            0 <= k1 < s.len() && 0 <= k2 < s.len() && h[#[trigger] s[k1] as int].data == h[#[trigger] s[k2] as int].data
            implies s[k1] == s[k2] by {
            if k1 < v.interned.len() && k2 < v.interned.len() {
                assert(s[k1] == v.interned[k1]);
                assert(s[k2] == v.interned[k2]);
                assert(h[s[k1] as int] == v.heap[s[k1] as int]);
                assert(h[s[k2] as int] == v.heap[s[k2] as int]);
            } else if k1 < v.interned.len() {
                assert(s[k1] == v.interned[k1]);
                assert(h[s[k1] as int] == v.heap[s[k1] as int]);
                lemma_find_interned_none(v.heap, v.interned, text, k1);
            } else if k2 < v.interned.len() {
                assert(s[k2] == v.interned[k2]);
                assert(h[s[k2] as int] == v.heap[s[k2] as int]);
                lemma_find_interned_none(v.heap, v.interned, text, k2);
            }
        }
    }
}

/// Every step of the machine, every reply to it and the start of a program keep the
/// strings interned: strings made while running (by concatenation) are interned too.
pub proof fn law_strings_stay_interned(v: VmView, reply: Reply, function: usize)
    requires
        strings_interned(v.heap, v.interned),
        v.heap.len() < usize::MAX,
    ensures
        strings_interned(step_spec(v).0.heap, step_spec(v).0.interned),
        strings_interned(resume_spec(v, reply).0.heap, resume_spec(v, reply).0.interned),
        strings_interned(interpret_spec(v, function).0.heap, interpret_spec(v, function).0.interned),
{
    if v.pending is Nothing {
        if let Some(ins) = decode_at(v) {
            let w = set_ip(v, ins.next);
            assert(w.heap == v.heap && w.interned == v.interned);
            let n = w.stack.len() as int;
            match ins.op {
                OpCode::OpClosure => {
                    let c = current_chunk(v).unwrap();
                    let index = ins.operand as int;
                    if index < c.constants.len() {
                        if let Value::Object(r) = c.constants[index] {
                            if r < w.heap.len() {
                                if let ObjData::Function(f) = w.heap[r as int].data {
                                    lemma_push_other(w.heap, w.interned, ObjectView {
                                        data: ObjData::Closure(crate::closure::ClosureView {
                                            function: r,
                                            upvalues: Seq::new(f.upvalue_count as nat, |i: int| None::<usize>),
                                        }),
                                        is_marked: false,
                                    });
                                }
                            }
                        }
                    }
                },
                OpCode::OpArray => {
                    if n >= ins.operand {
                        lemma_push_other(w.heap, w.interned, ObjectView {
                            data: ObjData::Array(w.stack.subrange(n - ins.operand, n)),
                            is_marked: false,
                        });
                    }
                },
                OpCode::OpAdd => {
                    if n >= 2 {
                        if let (Value::Object(x), Value::Object(y)) = (w.stack[n - 2], w.stack[n - 1]) {
                            if x < w.heap.len() && y < w.heap.len() {
                                if let (ObjData::String(sa), ObjData::String(sb)) = (w.heap[x as int].data, w.heap[y as int].data) {
                                    lemma_intern_keeps(w, sa + sb);
                                }
                            }
                        }
                    }
                },
                _ => {},
            }
        }
    }
    match (v.pending, reply) {
        (Pending::MakeArray, Reply::Length(len)) => {
            lemma_push_other(v.heap, v.interned, ObjectView {
                data: ObjData::Array(Seq::new(len as nat, |i: int| Value::Nil)),
                is_marked: false,
            });
        },
        (Pending::SetIndex { array, value, len }, Reply::Index(Some(i))) => {
            if i < len && array < v.heap.len() && v.heap[array as int].data is Array && i < v.heap[array as int].data->Array_0.len() {
                lemma_update_array(v.heap, v.interned, array as int, ObjectView {
                    data: ObjData::Array(v.heap[array as int].data->Array_0.update(i as int, value)),
                    ..v.heap[array as int]
                });
            }
        },
        _ => {},
    }
    if function < v.heap.len() && v.heap[function as int].data is Function {
        let f = v.heap[function as int].data->Function_0;
        lemma_push_other(v.heap, v.interned, ObjectView {
            data: ObjData::Closure(crate::closure::ClosureView {
                function,
                upvalues: Seq::new(f.upvalue_count as nat, |i: int| None::<usize>),
            }),
            is_marked: false,
        });
    }
}

/// Defining a built-in function keeps the strings interned.
pub proof fn lemma_define_native_keeps(v: VmView, f: crate::native::NativeView)
    requires
        strings_interned(v.heap, v.interned),
        v.heap.len() < usize::MAX,
    ensures
        strings_interned(crate::vm::define_native_spec(v, f).heap, crate::vm::define_native_spec(v, f).interned),
{
    lemma_intern_keeps(v, f.name);
    let v1 = intern_spec(v, f.name).0;
    lemma_push_other(v1.heap, v1.interned, ObjectView { data: ObjData::Native(f), is_marked: false });
}

/// Every step of the machine, every reply to it and the start of a program keep the
/// string objects made so far, where they were.
pub proof fn law_strings_persist(v: VmView, reply: Reply, function: usize)
    ensures
        keeps_strings(v, step_spec(v).0),
        keeps_strings(v, resume_spec(v, reply).0),
        keeps_strings(v, interpret_spec(v, function).0),
{
    if v.pending is Nothing {
        if let Some(ins) = decode_at(v) {
            let w = set_ip(v, ins.next);
            assert(w.heap == v.heap && w.interned == v.interned);
            if ins.op == OpCode::OpAdd {
                let n = w.stack.len() as int;
                if n >= 2 {
                    if let (Value::Object(x), Value::Object(y)) = (w.stack[n - 2], w.stack[n - 1]) {
                        if x < w.heap.len() && y < w.heap.len() {
                            if let (ObjData::String(sa), ObjData::String(sb)) = (w.heap[x as int].data, w.heap[y as int].data) {
                                let w1 = intern_spec(w, sa + sb).0;
                                assert forall|r: int| 0 <= r < v.heap.len() && (#[trigger] v.heap[r]).data is String implies w1.heap[r] == v.heap[r] by {}
                            }
                        }
                    }
                }
            }
        }
    }
}

/// Interning a text once an object holds a string: the interned object is that one
/// exactly when the texts are equal, it holds the text, and when the texts are equal
/// nothing changes. Together with the machine keeping its strings where they are and
/// interned (`keeps_strings`, `keeps_interning`), this holds across any calls between.
pub proof fn law_allocate_string_identity(v: VmView, p: int, s: Seq<char>, t: Seq<char>)
    requires
        strings_interned(v.heap, v.interned),
        v.heap.len() < usize::MAX,
        0 <= p < v.heap.len(),
        v.heap[p].data == ObjData::String(s),
    ensures
        ({
            let (w, q) = intern_spec(v, t);
            &&& (p == q) == (s == t)
            &&& q < w.heap.len()
            &&& w.heap[q as int].data == ObjData::String(t)
            &&& s == t ==> w == v
            &&& keeps_strings(v, w)
        }),
{
    law_intern_twice(v, t);
    lemma_intern_keeps(v, t);
    let (w, q) = intern_spec(v, t);
    assert(w.heap[p] == v.heap[p]);
    law_string_identity(w.heap, w.interned, p, q as int);
    if s == t {
        if find_interned(v.heap, v.interned, t) is None {
            let k = choose|k: int| 0 <= k < v.interned.len() && v.interned[k] == p;
            lemma_find_interned_none(v.heap, v.interned, t, k);
        }
    }
}

/// A new machine, with its built-in functions defined, has its strings interned.
pub proof fn law_new_machine_interned(k: nat)
    requires
        k <= native_table().len(),
    ensures
        strings_interned(with_natives(empty_vm(), native_table(), k).heap, with_natives(empty_vm(), native_table(), k).interned),
        with_natives(empty_vm(), native_table(), k).heap.len() <= 2 * k,
    decreases k,
{
    if k > 0 {
        law_new_machine_interned((k - 1) as nat);
        let v = with_natives(empty_vm(), native_table(), (k - 1) as nat);
        let f = native_table()[k - 1];
        lemma_intern_keeps(v, f.name);
        let v1 = intern_spec(v, f.name).0;
        lemma_push_other(v1.heap, v1.interned, ObjectView { data: ObjData::Native(f), is_marked: false });
    }
}

/// A runtime error leaves the machine ready for the next program: no values, no calls
/// and nothing pending, with the heap, the interned strings and the globals kept, and
/// the calls that were in progress, innermost first, kept as the trace.
pub proof fn law_runtime_error_resets(v: VmView, e: RuntimeError)
    ensures
        ({
            let (w, a) = fail(v, e);
            &&& a == Action::Error(e)
            &&& w.stack.len() == 0
            &&& w.frames.len() == 0
            &&& w.pending == Pending::Nothing
            &&& w.heap == v.heap
            &&& w.interned == v.interned
            &&& w.globals == v.globals
            &&& w.trace == v.frames.reverse()
        }),
{
}

/// A program ends exactly when no call is left in progress: a step or a reply that the
/// machine can carry out leaves no call exactly when it finishes the program or stops
/// it with an error.
pub proof fn law_program_ends_without_calls(v: VmView, reply: Reply)
    ensures
        ({
            let (w, a) = step_spec(v);
            a != Action::Fault ==> (w.frames.len() == 0 <==> (a == Action::Finished || a is Error))
        }),
        ({
            let (w, a) = resume_spec(v, reply);
            a != Action::Fault && v.frames.len() > 0 ==> (w.frames.len() == 0 <==> (a == Action::Finished
                || a is Error))
        }),
{
    if v.pending is Nothing {
        if let Some(ins) = decode_at(v) {
            let w = set_ip(v, ins.next);
            assert(w.frames.len() == v.frames.len());
            assert(v.frames.len() > 0);
        }
    }
}

/// The disassembler lists each jump with the offset it leads to: a jump at `o` with
/// distance `d` (big-endian in the two bytes after it) leads forward to `o + 3 + d`
/// for `OpJump` and `OpJumpIfFalse`, and back to `o + 3 - d` for `OpLoop`.
pub proof fn law_jump_listing(code: Seq<u8>, o: int)
    requires
        0 <= o,
        o + 3 <= code.len(),
    ensures
        ({
            let d = code[o + 1] as int * 256 + code[o + 2] as int;
            &&& code[o] == op_byte(OpCode::OpJumpIfFalse) && o + 3 + d <= usize::MAX ==> instruction_at(code, o) == Ok::<
                (OpCode, Operand, int),
                DisassemblyError,
            >((OpCode::OpJumpIfFalse, Operand::Jump((o + 3 + d) as usize), o + 3))
            &&& code[o] == op_byte(OpCode::OpJump) && o + 3 + d <= usize::MAX ==> instruction_at(code, o) == Ok::<
                (OpCode, Operand, int),
                DisassemblyError,
            >((OpCode::OpJump, Operand::Jump((o + 3 + d) as usize), o + 3))
            &&& code[o] == op_byte(OpCode::OpLoop) && d <= o + 3 <= usize::MAX ==> instruction_at(code, o) == Ok::<
                (OpCode, Operand, int),
                DisassemblyError,
            >((OpCode::OpLoop, Operand::Jump((o + 3 - d) as usize), o + 3))
        }),
{
    lemma_decode_encode(OpCode::OpJumpIfFalse);
    lemma_decode_encode(OpCode::OpJump);
    lemma_decode_encode(OpCode::OpLoop);
}

/// Arrays are indexed from their start: reading `a[i]` pushes element `i` and changes
/// nothing else; after `a[i] = x`, reading `a[i]` gives `x` and reading any other
/// element gives what was there; and the array literal `[x0, ..., xk-1]` holds `xi` at
/// index `i`, the values in the order they were pushed.
pub proof fn law_array_index(v: VmView, array: usize, len: usize, i: usize, j: usize, x: Value, k: u8, c: crate::chunk::ChunkView)
    requires
        array < v.heap.len(),
        v.heap[array as int].data is Array,
        i < len,
        j < len,
        len == v.heap[array as int].data->Array_0.len(),
    ensures
        ({
            let elems = v.heap[array as int].data->Array_0;
            let (w, a) = resume_spec(VmView { pending: Pending::GetIndex { array, len }, ..v }, Reply::Index(Some(i)));
            &&& a == Action::Continue
            &&& w.stack == v.stack.push(elems[i as int])
            &&& w.heap == v.heap
        }),
        ({
            let elems = v.heap[array as int].data->Array_0;
            let (w1, a1) = resume_spec(VmView { pending: Pending::SetIndex { array, value: x, len }, ..v }, Reply::Index(Some(i)));
            let (w2, a2) = resume_spec(VmView { pending: Pending::GetIndex { array, len }, ..w1 }, Reply::Index(Some(j)));
            &&& a1 == Action::Continue
            &&& a2 == Action::Continue
            &&& w2.stack.last() == (if j == i { x } else { elems[j as int] })
        }),
        ({
            let n = v.stack.len() as int;
            let ins = Instr { op: OpCode::OpArray, operand: k, short: 0, next: 0 };
            let w = crate::vm::exec_spec(v, c, ins).0;
            let r = v.heap.len() as int;
            k <= n && (i as int) < k && v.heap.len() < usize::MAX ==> w.heap[r].data is Array && w.heap[r].data->Array_0.len() == k
                && w.heap[r].data->Array_0[i as int] == v.stack[n - k + i]
        }),
{
}

/// `return;` gives `nil` to the caller: running `OpNil` then `OpReturn` in a called
/// function leaves the caller's frames and, in place of the callee's slots, `nil` on top
/// of the stack.
pub proof fn law_return_nil(v: VmView)
    requires
        v.pending is Nothing,
        v.frames.len() >= 2,
        current_chunk(v) is Some,
        v.frames.last().ip + 2 <= current_chunk(v)->0.code.len(),
        current_chunk(v)->0.code[v.frames.last().ip as int] == op_byte(OpCode::OpNil),
        current_chunk(v)->0.code[v.frames.last().ip + 1] == op_byte(OpCode::OpReturn),
        v.frames.last().ip + 2 <= usize::MAX,
    ensures
        ({
            let (w1, a1) = step_spec(v);
            let (w2, a2) = step_spec(w1);
            &&& a1 == Action::Continue
            &&& a2 == Action::Continue
            &&& w2.frames == v.frames.drop_last()
            &&& w2.stack == crate::vm::truncated(v.stack, v.frames.last().stack_base as int).push(Value::Nil)
        }),
{
    lemma_decode_encode(OpCode::OpNil);
    lemma_decode_encode(OpCode::OpReturn);
    let ins = decode_at(v)->0;
    let w0 = set_ip(v, ins.next);
    assert(w0.frames.last() == crate::closure::CallFrame { ip: ins.next, ..v.frames.last() });
    assert(current_chunk(w0) == current_chunk(v));
    let (w1, a1) = step_spec(v);
    assert(w1.frames == w0.frames);
    assert(current_chunk(w1) == current_chunk(v));
    let ins2 = decode_at(w1)->0;
    let w1b = set_ip(w1, ins2.next);
    assert(w1b.frames.drop_last() =~= v.frames.drop_last());
    assert(w1b.stack.drop_last() =~= v.stack);
}

/// `left and right` yields `left` when it is false, without running `right`, and
/// `right` otherwise: with the left value on top of the stack at the start of `and`
/// code, a false value is kept and the machine goes on at the code's end; a true value
/// is popped and the machine goes on with the right operand's code.
pub proof fn law_and_short_circuit(v: VmView, end: int)
    requires
        v.pending is Nothing,
        v.frames.len() >= 1,
        v.stack.len() >= 1,
        current_chunk(v) is Some,
        crate::compiler::expression::and_code(current_chunk(v)->0.code, v.frames.last().ip as int, end),
        end - v.frames.last().ip - 3 < 65536,
        end <= usize::MAX,
    ensures
        ({
            let (w1, a1) = step_spec(v);
            let ip = v.frames.last().ip as int;
            &&& a1 == Action::Continue
            &&& falsey(v.stack.last()) ==> w1.stack == v.stack && w1.frames.last().ip == end
            &&& !falsey(v.stack.last()) ==> {
                let (w2, a2) = step_spec(w1);
                &&& a2 == Action::Continue
                &&& w2.stack == v.stack.drop_last()
                &&& w2.frames.last().ip == ip + 4
            }
        }),
{
    lemma_decode_encode(OpCode::OpJumpIfFalse);
    lemma_decode_encode(OpCode::OpPop);
    let c = current_chunk(v)->0;
    let ip = v.frames.last().ip as int;
    let ins = decode_at(v)->0;
    let out = (end - ip - 3) % 65536;
    assert(out == end - ip - 3);
    assert(ins.op == OpCode::OpJumpIfFalse);
    assert(ins.short == out) by (nonlinear_arith)
        requires
            ins.short == (c.code[ip + 1] as int * 256 + c.code[ip + 2] as int) as u16,
            c.code[ip + 1] == (out / 256) as u8,
            c.code[ip + 2] == (out % 256) as u8,
            0 <= out < 65536,
    ;
    let (w1, a1) = step_spec(v);
    assert(current_chunk(w1) == current_chunk(v));
    if !falsey(v.stack.last()) {
        assert(w1.frames.last().ip == ip + 3);
        let ins2 = decode_at(w1)->0;
        assert(ins2.op == OpCode::OpPop);
    }
}

/// `left or right` yields `left` when it is true, without running `right`, and `right`
/// otherwise: with the left value on top of the stack at the start of `or` code, a true
/// value is kept and the machine goes on at the code's end, two steps later; a false
/// value is popped and the machine goes on with the right operand's code.
pub proof fn law_or_short_circuit(v: VmView, end: int)
    requires
        v.pending is Nothing,
        v.frames.len() >= 1,
        v.stack.len() >= 1,
        current_chunk(v) is Some,
        crate::compiler::expression::or_code(current_chunk(v)->0.code, v.frames.last().ip as int, end),
        end - v.frames.last().ip - 6 < 65536,
        end <= usize::MAX,
    ensures
        ({
            let (w1, a1) = step_spec(v);
            let (w2, a2) = step_spec(w1);
            let ip = v.frames.last().ip as int;
            &&& a1 == Action::Continue
            &&& a2 == Action::Continue
            &&& w2.frames.len() == v.frames.len()
            &&& !falsey(v.stack.last()) ==> w2.stack == v.stack && w2.frames.last().ip == end
            &&& falsey(v.stack.last()) ==> w2.stack == v.stack.drop_last() && w2.frames.last().ip == ip + 7
        }),
{
    lemma_decode_encode(OpCode::OpJumpIfFalse);
    lemma_decode_encode(OpCode::OpJump);
    lemma_decode_encode(OpCode::OpPop);
    let c = current_chunk(v)->0;
    let ip = v.frames.last().ip as int;
    let ins = decode_at(v)->0;
    assert(ins.op == OpCode::OpJumpIfFalse);
    assert(ins.short == 3);
    let (w1, a1) = step_spec(v);
    assert(current_chunk(w1) == current_chunk(v));
    let out = (end - ip - 6) % 65536;
    assert(out == end - ip - 6);
    if !falsey(v.stack.last()) {
        assert(w1.frames.last().ip == ip + 3);
        let ins2 = decode_at(w1)->0;
        assert(ins2.op == OpCode::OpJump);
        assert(ins2.short == out) by (nonlinear_arith)
            requires
                ins2.short == (c.code[ip + 4] as int * 256 + c.code[ip + 5] as int) as u16,
                c.code[ip + 4] == (out / 256) as u8,
                c.code[ip + 5] == (out % 256) as u8,
                0 <= out < 65536,
        ;
    } else {
        assert(w1.frames.last().ip == ip + 6);
        let ins2 = decode_at(w1)->0;
        assert(ins2.op == OpCode::OpPop);
    }
}

/// The answer that a comparison operator gives on two numbers.
pub open spec fn compares(t: TokenType, a: u64, b: u64) -> bool {
    match t {
        TokenType::EqualEqual => number_eq(a, b),
        TokenType::BangEqual => !number_eq(a, b),
        TokenType::Less => number_lt(a, b),
        TokenType::Greater => number_lt(b, a),
        TokenType::LessEqual => !number_lt(b, a),
        _ => !number_lt(a, b),
    }
}

/// The code of a comparison computes it: with the numbers `a` then `b` on top of the
/// stack, running the operator's code replaces them by the answer (`<=` as not `>`,
/// `>=` as not `<`, `!=` as not `==`), and the arithmetic operators hand the two
/// numbers to the driver with the operation.
pub proof fn law_binary_code(v: VmView, t: TokenType, a: u64, b: u64)
    requires
        v.pending is Nothing,
        v.frames.len() >= 1,
        v.stack.len() >= 2,
        v.stack[v.stack.len() - 2] == Value::Number(a),
        v.stack.last() == Value::Number(b),
        current_chunk(v) is Some,
        v.frames.last().ip + crate::compiler::expression::binary_code(t).len() <= current_chunk(v)->0.code.len(),
        v.frames.last().ip + 2 <= usize::MAX,
        current_chunk(v)->0.code.subrange(
            v.frames.last().ip as int,
            v.frames.last().ip + crate::compiler::expression::binary_code(t).len(),
        ) == crate::compiler::expression::binary_code(t),
    ensures
        ({
            let n = v.stack.len() as int;
            let rest = v.stack.drop_last().drop_last();
            let (w1, a1) = step_spec(v);
            let (w2, a2) = step_spec(w1);
            &&& (t == TokenType::EqualEqual || t == TokenType::Less || t == TokenType::Greater) ==> a1
                == Action::Continue && w1.stack == rest.push(Value::Bool(compares(t, a, b)))
            &&& (t == TokenType::BangEqual || t == TokenType::LessEqual || t == TokenType::GreaterEqual) ==> a2
                == Action::Continue && w2.stack == rest.push(Value::Bool(compares(t, a, b)))
            &&& t == TokenType::Plus ==> a1 == Action::Arithmetic(crate::vm::NumericOp::Add, a, b)
            &&& t == TokenType::Minus ==> a1 == Action::Arithmetic(crate::vm::NumericOp::Subtract, a, b)
            &&& t == TokenType::Star ==> a1 == Action::Arithmetic(crate::vm::NumericOp::Multiply, a, b)
            &&& t == TokenType::Slash ==> a1 == Action::Arithmetic(crate::vm::NumericOp::Divide, a, b)
        }),
{
    let code = crate::compiler::expression::binary_code(t);
    let c = current_chunk(v)->0;
    let ip = v.frames.last().ip as int;
    assert(c.code[ip] == code[0]);
    lemma_decode_encode(OpCode::OpEqual);
    lemma_decode_encode(OpCode::OpLess);
    lemma_decode_encode(OpCode::OpGreater);
    lemma_decode_encode(OpCode::OpNot);
    lemma_decode_encode(OpCode::OpAdd);
    lemma_decode_encode(OpCode::OpSubtract);
    lemma_decode_encode(OpCode::OpMultiply);
    lemma_decode_encode(OpCode::OpDivide);
    let (w1, a1) = step_spec(v);
    if code.len() == 2 {
        assert(c.code[ip + 1] == code[1]);
        assert(current_chunk(w1) == current_chunk(v));
        assert(w1.frames.last().ip == ip + 1);
    }
}

/// The code of a literal pushes its value: `nil`, `true` or `false`.
pub proof fn law_literal_code(v: VmView, t: TokenType)
    requires
        t == TokenType::Nil || t == TokenType::True || t == TokenType::False,
        v.pending is Nothing,
        v.frames.len() >= 1,
        current_chunk(v) is Some,
        v.frames.last().ip < current_chunk(v)->0.code.len(),
        current_chunk(v)->0.code[v.frames.last().ip as int] == op_byte(crate::compiler::expression::literal_op(t)),
    ensures
        ({
            let (w, a) = step_spec(v);
            &&& a == Action::Continue
            &&& w.stack == v.stack.push(
                if t == TokenType::Nil {
                    Value::Nil
                } else {
                    Value::Bool(t == TokenType::True)
                },
            )
        }),
{
    lemma_decode_encode(OpCode::OpNil);
    lemma_decode_encode(OpCode::OpTrue);
    lemma_decode_encode(OpCode::OpFalse);
}

/// Locals live in the stack from the frame's base: after storing the top value into
/// slot `k`, reading slot `k` pushes that value; other slots keep theirs.
pub proof fn law_local_read_after_write(v: VmView, c: crate::chunk::ChunkView, k: u8, j: u8)
    requires
        v.frames.len() >= 1,
        v.stack.len() >= 1,
        v.frames.last().stack_base + k < v.stack.len(),
        v.frames.last().stack_base + j < v.stack.len(),
    ensures
        ({
            let set = Instr { op: OpCode::OpSetLocal, operand: k, short: 0, next: 0 };
            let (w1, a1) = crate::vm::exec_spec(v, c, set);
            let get = Instr { op: OpCode::OpGetLocal, operand: j, short: 0, next: 0 };
            let (w2, a2) = crate::vm::exec_spec(w1, c, get);
            &&& a1 == Action::Continue
            &&& a2 == Action::Continue
            &&& w2.stack.last() == (if j == k {
                v.stack.last()
            } else {
                v.stack[v.frames.last().stack_base + j]
            })
        }),
{
}

/// Globals are found by name: after defining a global from the top of the stack,
/// reading it pushes that value.
pub proof fn law_global_define_then_get(v: VmView, c: crate::chunk::ChunkView, k: u8)
    requires
        v.frames.len() >= 1,
        v.stack.len() >= 1,
        (k as int) < c.constants.len(),
        c.constants[k as int] is Object,
    ensures
        ({
            let def = Instr { op: OpCode::OpDefineGlobal, operand: k, short: 0, next: 0 };
            let (w1, a1) = crate::vm::exec_spec(v, c, def);
            let get = Instr { op: OpCode::OpGetGlobal, operand: k, short: 0, next: 0 };
            let (w2, a2) = crate::vm::exec_spec(w1, c, get);
            &&& a1 == Action::Continue
            &&& a2 == Action::Continue
            &&& w2.stack == v.stack.drop_last().push(v.stack.last())
        }),
{
    let name = c.constants[k as int]->Object_0;
    law_global_read_after_write(v.globals, name, v.stack.last(), name);
}

/// An `if` runs one branch: at its condition's jump, a true condition is popped and the
/// machine goes on with the then-branch; a false one is popped and the machine goes on
/// with the else-branch; at the end of the then-branch it jumps to the end of the code.
pub proof fn law_if_branches(v: VmView, start: int, e1: int, e2: int)
    requires
        v.pending is Nothing,
        v.frames.len() >= 1,
        v.stack.len() >= 1,
        current_chunk(v) is Some,
        crate::compiler::statement::if_jumps(current_chunk(v)->0.code, start, e1, e2),
        current_chunk(v)->0.code.len() - e2 - 2 < 65536,
        e2 - e1 < 65536,
        current_chunk(v)->0.code.len() <= usize::MAX,
    ensures
        v.frames.last().ip == e1 - 1 ==> ({
            let (w1, a1) = step_spec(v);
            let (w2, a2) = step_spec(w1);
            &&& a1 == Action::Continue
            &&& a2 == Action::Continue
            &&& w2.stack == v.stack.drop_last()
            &&& w2.frames.last().ip == if falsey(v.stack.last()) {
                e2 + 3
            } else {
                e1 + 3
            }
        }),
        v.frames.last().ip == e2 - 1 ==> ({
            let (w1, a1) = step_spec(v);
            &&& a1 == Action::Continue
            &&& w1.stack == v.stack
            &&& w1.frames.last().ip == current_chunk(v)->0.code.len()
        }),
{
    lemma_decode_encode(OpCode::OpJumpIfFalse);
    lemma_decode_encode(OpCode::OpJump);
    lemma_decode_encode(OpCode::OpPop);
    let c = current_chunk(v)->0;
    let n = c.code.len() as int;
    let t = (e2 - e1) % 65536;
    let o = (n - e2 - 2) % 65536;
    assert(t == e2 - e1);
    assert(o == n - e2 - 2);
    if v.frames.last().ip == e1 - 1 {
        let ins = decode_at(v)->0;
        assert(ins.short == t) by (nonlinear_arith)
            requires
                ins.short == (c.code[e1] as int * 256 + c.code[e1 + 1] as int) as u16,
                c.code[e1] == (t / 256) as u8,
                c.code[e1 + 1] == (t % 256) as u8,
                0 <= t < 65536,
        ;
        let (w1, a1) = step_spec(v);
        assert(current_chunk(w1) == current_chunk(v));
        let ins2 = decode_at(w1)->0;
        assert(ins2.op == OpCode::OpPop);
    }
    if v.frames.last().ip == e2 - 1 {
        let ins = decode_at(v)->0;
        assert(ins.short == o) by (nonlinear_arith)
            requires
                ins.short == (c.code[e2] as int * 256 + c.code[e2 + 1] as int) as u16,
                c.code[e2] == (o / 256) as u8,
                c.code[e2 + 1] == (o % 256) as u8,
                0 <= o < 65536,
        ;
    }
}

/// The disassembler reads each instruction with the operand it has: a constant index
/// after the instructions that name a constant, one byte after those that take a slot,
/// a count or a distance in bytes, and nothing after the others; and a byte that is no
/// instruction is an error.
pub proof fn law_operand_listing(code: Seq<u8>, o: int)
    requires
        0 <= o < code.len(),
    ensures
        code[o] == op_byte(OpCode::OpConstant) && o + 2 <= code.len() ==> instruction_at(code, o) == Ok::<(OpCode, Operand, int), DisassemblyError>((OpCode::OpConstant, Operand::Constant(code[o + 1]), o + 2)),
        code[o] == op_byte(OpCode::OpDefineGlobal) && o + 2 <= code.len() ==> instruction_at(code, o) == Ok::<(OpCode, Operand, int), DisassemblyError>((OpCode::OpDefineGlobal, Operand::Constant(code[o + 1]), o + 2)),
        code[o] == op_byte(OpCode::OpGetGlobal) && o + 2 <= code.len() ==> instruction_at(code, o) == Ok::<(OpCode, Operand, int), DisassemblyError>((OpCode::OpGetGlobal, Operand::Constant(code[o + 1]), o + 2)),
        code[o] == op_byte(OpCode::OpSetGlobal) && o + 2 <= code.len() ==> instruction_at(code, o) == Ok::<(OpCode, Operand, int), DisassemblyError>((OpCode::OpSetGlobal, Operand::Constant(code[o + 1]), o + 2)),
        code[o] == op_byte(OpCode::OpClosure) && o + 2 <= code.len() ==> instruction_at(code, o) == Ok::<(OpCode, Operand, int), DisassemblyError>((OpCode::OpClosure, Operand::Constant(code[o + 1]), o + 2)),
        code[o] == op_byte(OpCode::OpGetLocal) && o + 2 <= code.len() ==> instruction_at(code, o) == Ok::<(OpCode, Operand, int), DisassemblyError>((OpCode::OpGetLocal, Operand::Byte(code[o + 1]), o + 2)),
        code[o] == op_byte(OpCode::OpSetLocal) && o + 2 <= code.len() ==> instruction_at(code, o) == Ok::<(OpCode, Operand, int), DisassemblyError>((OpCode::OpSetLocal, Operand::Byte(code[o + 1]), o + 2)),
        code[o] == op_byte(OpCode::OpCall) && o + 2 <= code.len() ==> instruction_at(code, o) == Ok::<(OpCode, Operand, int), DisassemblyError>((OpCode::OpCall, Operand::Byte(code[o + 1]), o + 2)),
        code[o] == op_byte(OpCode::OpPopN) && o + 2 <= code.len() ==> instruction_at(code, o) == Ok::<(OpCode, Operand, int), DisassemblyError>((OpCode::OpPopN, Operand::Byte(code[o + 1]), o + 2)),
        code[o] == op_byte(OpCode::OpYield) && o + 2 <= code.len() ==> instruction_at(code, o) == Ok::<(OpCode, Operand, int), DisassemblyError>((OpCode::OpYield, Operand::Byte(code[o + 1]), o + 2)),
        code[o] == op_byte(OpCode::OpGetUpvalue) && o + 2 <= code.len() ==> instruction_at(code, o) == Ok::<(OpCode, Operand, int), DisassemblyError>((OpCode::OpGetUpvalue, Operand::Byte(code[o + 1]), o + 2)),
        code[o] == op_byte(OpCode::OpSetUpvalue) && o + 2 <= code.len() ==> instruction_at(code, o) == Ok::<(OpCode, Operand, int), DisassemblyError>((OpCode::OpSetUpvalue, Operand::Byte(code[o + 1]), o + 2)),
        code[o] == op_byte(OpCode::OpArray) && o + 2 <= code.len() ==> instruction_at(code, o) == Ok::<(OpCode, Operand, int), DisassemblyError>((OpCode::OpArray, Operand::Byte(code[o + 1]), o + 2)),
        code[o] == op_byte(OpCode::OpReturn) ==> instruction_at(code, o) == Ok::<(OpCode, Operand, int), DisassemblyError>((OpCode::OpReturn, Operand::Simple, o + 1)),
        code[o] == op_byte(OpCode::OpNegate) ==> instruction_at(code, o) == Ok::<(OpCode, Operand, int), DisassemblyError>((OpCode::OpNegate, Operand::Simple, o + 1)),
        code[o] == op_byte(OpCode::OpAdd) ==> instruction_at(code, o) == Ok::<(OpCode, Operand, int), DisassemblyError>((OpCode::OpAdd, Operand::Simple, o + 1)),
        code[o] == op_byte(OpCode::OpSubtract) ==> instruction_at(code, o) == Ok::<(OpCode, Operand, int), DisassemblyError>((OpCode::OpSubtract, Operand::Simple, o + 1)),
        code[o] == op_byte(OpCode::OpMultiply) ==> instruction_at(code, o) == Ok::<(OpCode, Operand, int), DisassemblyError>((OpCode::OpMultiply, Operand::Simple, o + 1)),
        code[o] == op_byte(OpCode::OpDivide) ==> instruction_at(code, o) == Ok::<(OpCode, Operand, int), DisassemblyError>((OpCode::OpDivide, Operand::Simple, o + 1)),
        code[o] == op_byte(OpCode::OpNil) ==> instruction_at(code, o) == Ok::<(OpCode, Operand, int), DisassemblyError>((OpCode::OpNil, Operand::Simple, o + 1)),
        code[o] == op_byte(OpCode::OpTrue) ==> instruction_at(code, o) == Ok::<(OpCode, Operand, int), DisassemblyError>((OpCode::OpTrue, Operand::Simple, o + 1)),
        code[o] == op_byte(OpCode::OpFalse) ==> instruction_at(code, o) == Ok::<(OpCode, Operand, int), DisassemblyError>((OpCode::OpFalse, Operand::Simple, o + 1)),
        code[o] == op_byte(OpCode::OpNot) ==> instruction_at(code, o) == Ok::<(OpCode, Operand, int), DisassemblyError>((OpCode::OpNot, Operand::Simple, o + 1)),
        code[o] == op_byte(OpCode::OpEqual) ==> instruction_at(code, o) == Ok::<(OpCode, Operand, int), DisassemblyError>((OpCode::OpEqual, Operand::Simple, o + 1)),
        code[o] == op_byte(OpCode::OpGreater) ==> instruction_at(code, o) == Ok::<(OpCode, Operand, int), DisassemblyError>((OpCode::OpGreater, Operand::Simple, o + 1)),
        code[o] == op_byte(OpCode::OpLess) ==> instruction_at(code, o) == Ok::<(OpCode, Operand, int), DisassemblyError>((OpCode::OpLess, Operand::Simple, o + 1)),
        code[o] == op_byte(OpCode::OpPrint) ==> instruction_at(code, o) == Ok::<(OpCode, Operand, int), DisassemblyError>((OpCode::OpPrint, Operand::Simple, o + 1)),
        code[o] == op_byte(OpCode::OpPop) ==> instruction_at(code, o) == Ok::<(OpCode, Operand, int), DisassemblyError>((OpCode::OpPop, Operand::Simple, o + 1)),
        code[o] == op_byte(OpCode::OpDup) ==> instruction_at(code, o) == Ok::<(OpCode, Operand, int), DisassemblyError>((OpCode::OpDup, Operand::Simple, o + 1)),
        code[o] == op_byte(OpCode::OpMakeArray) ==> instruction_at(code, o) == Ok::<(OpCode, Operand, int), DisassemblyError>((OpCode::OpMakeArray, Operand::Simple, o + 1)),
        code[o] == op_byte(OpCode::OpLen) ==> instruction_at(code, o) == Ok::<(OpCode, Operand, int), DisassemblyError>((OpCode::OpLen, Operand::Simple, o + 1)),
        code[o] == op_byte(OpCode::OpGetIndex) ==> instruction_at(code, o) == Ok::<(OpCode, Operand, int), DisassemblyError>((OpCode::OpGetIndex, Operand::Simple, o + 1)),
        code[o] == op_byte(OpCode::OpSetIndex) ==> instruction_at(code, o) == Ok::<(OpCode, Operand, int), DisassemblyError>((OpCode::OpSetIndex, Operand::Simple, o + 1)),
        code[o] >= 36 ==> instruction_at(code, o) == Err::<(OpCode, Operand, int), DisassemblyError>(DisassemblyError::UnknownOpcode(code[o])),
{
    lemma_decode_encode(OpCode::OpConstant);
    lemma_decode_encode(OpCode::OpDefineGlobal);
    lemma_decode_encode(OpCode::OpGetGlobal);
    lemma_decode_encode(OpCode::OpSetGlobal);
    lemma_decode_encode(OpCode::OpClosure);
    lemma_decode_encode(OpCode::OpGetLocal);
    lemma_decode_encode(OpCode::OpSetLocal);
    lemma_decode_encode(OpCode::OpCall);
    lemma_decode_encode(OpCode::OpPopN);
    lemma_decode_encode(OpCode::OpYield);
    lemma_decode_encode(OpCode::OpGetUpvalue);
    lemma_decode_encode(OpCode::OpSetUpvalue);
    lemma_decode_encode(OpCode::OpArray);
    lemma_decode_encode(OpCode::OpReturn);
    lemma_decode_encode(OpCode::OpNegate);
    lemma_decode_encode(OpCode::OpAdd);
    lemma_decode_encode(OpCode::OpSubtract);
    lemma_decode_encode(OpCode::OpMultiply);
    lemma_decode_encode(OpCode::OpDivide);
    lemma_decode_encode(OpCode::OpNil);
    lemma_decode_encode(OpCode::OpTrue);
    lemma_decode_encode(OpCode::OpFalse);
    lemma_decode_encode(OpCode::OpNot);
    lemma_decode_encode(OpCode::OpEqual);
    lemma_decode_encode(OpCode::OpGreater);
    lemma_decode_encode(OpCode::OpLess);
    lemma_decode_encode(OpCode::OpPrint);
    lemma_decode_encode(OpCode::OpPop);
    lemma_decode_encode(OpCode::OpDup);
    lemma_decode_encode(OpCode::OpMakeArray);
    lemma_decode_encode(OpCode::OpLen);
    lemma_decode_encode(OpCode::OpGetIndex);
    lemma_decode_encode(OpCode::OpSetIndex);
    lemma_encode_decode(code[o]);
}

/// The stack instructions: `OpDup` copies the top, `OpPop` drops it, `OpPopN k` drops
/// `k` values, `OpYield k` keeps the top and drops the `k` values beneath it, `OpNot`
/// replaces the top by whether it counts as false, `OpNegate` negates a number on top,
/// `OpConstant k` pushes constant `k`, and `OpPrint` hands the top to be printed.
pub proof fn law_stack_instructions(v: VmView, c: crate::chunk::ChunkView, k: u8)
    requires
        v.frames.len() >= 1,
        v.stack.len() >= 1,
    ensures
        ({
            let s = v.stack;
            let n = s.len() as int;
            let top = s[n - 1];
            let run = |op: OpCode| crate::vm::exec_spec(v, c, Instr { op, operand: k, short: 0, next: 0 });
            &&& run(OpCode::OpDup) == (VmView { stack: s.push(top), ..v }, Action::Continue)
            &&& run(OpCode::OpPop) == (VmView { stack: s.subrange(0, n - 1), ..v }, Action::Continue)
            &&& k <= n ==> run(OpCode::OpPopN) == (VmView { stack: s.subrange(0, n - k), ..v }, Action::Continue)
            &&& k < n ==> run(OpCode::OpYield) == (VmView { stack: s.subrange(0, n - 1 - k).push(top), ..v }, Action::Continue)
            &&& run(OpCode::OpNot) == (VmView {
                stack: s.subrange(0, n - 1).push(Value::Bool(top == Value::Nil || top == Value::Bool(false))),
                ..v
            }, Action::Continue)
            &&& top matches Value::Number(x) ==> run(OpCode::OpNegate) == (VmView {
                stack: s.subrange(0, n - 1).push(Value::Number(x ^ 0x8000_0000_0000_0000u64)),
                ..v
            }, Action::Continue)
            &&& (k as int) < c.constants.len() ==> run(OpCode::OpConstant) == (VmView {
                stack: s.push(c.constants[k as int]),
                ..v
            }, Action::Continue)
            &&& run(OpCode::OpPrint) == (VmView { stack: s.subrange(0, n - 1), ..v }, Action::Print(top))
        }),
{
    let s = v.stack;
    let n = s.len() as int;
    assert(s.drop_last() =~= s.subrange(0, n - 1));
    if k < n {
        assert(s.drop_last().subrange(0, n - 1 - k) =~= s.subrange(0, n - 1 - k));
    }
    if let Value::Number(x) = s[n - 1] {
        assert(s.update(n - 1, Value::Number(negate_bits(x))) =~= s.subrange(0, n - 1).push(
            Value::Number(x ^ 0x8000_0000_0000_0000u64),
        ));
    }
}

/// The jumps move the innermost call's offset and leave the stack: `OpJump` forward by
/// its distance from the end of the instruction, `OpLoop` back by it, and
/// `OpJumpIfFalse` forward only when the top value counts as false (it stays).
pub proof fn law_jump_instructions(v: VmView, c: crate::chunk::ChunkView, next: usize, short: u16)
    requires
        v.frames.len() >= 1,
        v.stack.len() >= 1,
        next + short <= usize::MAX,
        short <= next,
    ensures
        ({
            let run = |op: OpCode| crate::vm::exec_spec(v, c, Instr { op, operand: 0, short, next });
            let moved = |ip: int| VmView { frames: v.frames.update(v.frames.len() - 1, crate::closure::CallFrame { ip: ip as usize, ..v.frames.last() }), ..v };
            let top = v.stack.last();
            &&& run(OpCode::OpJump) == (moved(next + short), Action::Continue)
            &&& run(OpCode::OpLoop) == (moved(next - short), Action::Continue)
            &&& (top == Value::Nil || top == Value::Bool(false)) ==> run(OpCode::OpJumpIfFalse) == (moved(next + short), Action::Continue)
            &&& !(top == Value::Nil || top == Value::Bool(false)) ==> run(OpCode::OpJumpIfFalse) == (v, Action::Continue)
        }),
{
}

/// Calling a closure with as many arguments as its function has parameters starts a
/// call at the function's first instruction, whose slots begin at the callee; with
/// another count it stops with an arity error and calls nothing.
pub proof fn law_call(v: VmView, argc: u8)
    requires
        v.stack.len() >= argc + 1,
        v.stack[v.stack.len() - argc - 1] is Object,
        crate::vm::closure_function(v.heap, v.stack[v.stack.len() - argc - 1]->Object_0) is Some,
    ensures
        ({
            let base = v.stack.len() - argc - 1;
            let r = v.stack[base]->Object_0;
            let f = crate::vm::closure_function(v.heap, r)->0;
            let (w, a) = crate::vm::call_spec(v, argc as int);
            &&& f.arity == argc ==> a == Action::Continue && w.stack == v.stack && w.frames == v.frames.push(
                crate::closure::CallFrame { closure: r, ip: 0, stack_base: base as usize },
            )
            &&& f.arity != argc ==> a == Action::Error(RuntimeError::Arity { arity: f.arity, got: argc as usize, callee: r })
                && w.frames.len() == 0
        }),
{
}

/// A constant the compiler loads is the value the machine pushes: when `new` results
/// from `old` by loading `value` (and the pool had room for it or held it), running the
/// new code from where `old`'s ended pushes `value`.
pub proof fn law_loaded_constant(old: crate::compiler::Compiler, new: crate::compiler::Compiler, value: Value, v: VmView)
    requires
        crate::compiler::Compiler::loads_constant(old, new, value),
        write_constant_spec(old.chunk_view().constants, value) is Some,
        old.chunk_view().constants.len() <= 256,
        constant_key(value) is Some,
        v.pending is Nothing,
        v.frames.len() >= 1,
        current_chunk(v) == Some(new.chunk_view()),
        v.frames.last().ip == old.code().len(),
    ensures
        ({
            let (w, a) = step_spec(v);
            &&& a == Action::Continue
            &&& w.stack == v.stack.push(value)
        }),
{
    lemma_decode_encode(OpCode::OpConstant);
    law_constant_shared(old.chunk_view().constants, value);
    let n = old.code().len() as int;
    assert(new.code()[n] == op_byte(OpCode::OpConstant));
}

/// The driver's replies land where the request came from: an arithmetic result takes
/// the place of its two operands; a length is pushed; a new array of the given length,
/// all `nil`, is made and pushed; a built-in function's result takes the place of the
/// function and its arguments; a failed built-in stops the program with an error.
pub proof fn law_replies(v: VmView, x: u64, len: usize, argc: usize, r: Value)
    requires
        v.stack.len() >= argc + 2,
    ensures
        ({
            let n = v.stack.len() as int;
            let back = VmView { pending: Pending::Nothing, ..v };
            &&& resume_spec(VmView { pending: Pending::Arithmetic, ..v }, Reply::Number(x)) == (
                VmView { stack: v.stack.subrange(0, n - 2).push(Value::Number(x)), ..back },
                Action::Continue,
            )
            &&& resume_spec(VmView { pending: Pending::Len, ..v }, Reply::Number(x)) == (
                VmView { stack: v.stack.push(Value::Number(x)), ..back },
                Action::Continue,
            )
            &&& ({
                let (w, a) = resume_spec(VmView { pending: Pending::MakeArray, ..v }, Reply::Length(len));
                &&& a == Action::Continue
                &&& w.heap.len() == v.heap.len() + 1
                &&& w.heap.last().data == ObjData::Array(Seq::new(len as nat, |i: int| Value::Nil))
                &&& w.stack == v.stack.push(Value::Object(v.heap.len() as usize))
            })
            &&& resume_spec(VmView { pending: Pending::Native { arg_count: argc }, ..v }, Reply::Native(Some(r))) == (
                VmView { stack: v.stack.subrange(0, n - argc - 1).push(r), ..back },
                Action::Continue,
            )
            &&& resume_spec(VmView { pending: Pending::Native { arg_count: argc }, ..v }, Reply::Native(None)).1
                == Action::Error(RuntimeError::Native)
        }),
{
    let n = v.stack.len() as int;
    assert(v.stack.drop_last().drop_last() =~= v.stack.subrange(0, n - 2));
}

/// `+` on two strings gives their concatenation: the two operands are replaced by a
/// string object that holds the left text followed by the right one. On two numbers it
/// hands the sum to the driver.
pub proof fn law_add(v: VmView, c: crate::chunk::ChunkView)
    requires
        v.stack.len() >= 2,
        v.heap.len() < usize::MAX,
        v.frames.len() >= 1,
    ensures
        ({
            let n = v.stack.len() as int;
            let (w, a) = crate::vm::exec_spec(v, c, Instr { op: OpCode::OpAdd, operand: 0, short: 0, next: 0 });
            &&& (v.stack[n - 2], v.stack[n - 1]) matches (Value::Object(x), Value::Object(y)) ==> (x < v.heap.len()
                && y < v.heap.len() && v.heap[x as int].data is String && v.heap[y as int].data is String ==> {
                let text = v.heap[x as int].data->String_0 + v.heap[y as int].data->String_0;
                &&& a == Action::Continue
                &&& w.stack.len() == n - 1
                &&& w.stack.subrange(0, n - 2) == v.stack.subrange(0, n - 2)
                &&& w.stack.last() matches Value::Object(r) && r < w.heap.len() && w.heap[r as int].data
                    == ObjData::String(text)
            })
            &&& (v.stack[n - 2], v.stack[n - 1]) matches (Value::Number(x), Value::Number(y)) ==> a
                == Action::Arithmetic(crate::vm::NumericOp::Add, x, y)
        }),
{
    let n = v.stack.len() as int;
    if let (Value::Object(x), Value::Object(y)) = (v.stack[n - 2], v.stack[n - 1]) {
        if x < v.heap.len() && y < v.heap.len() {
            if let (ObjData::String(sa), ObjData::String(sb)) = (v.heap[x as int].data, v.heap[y as int].data) {
                lemma_find_interned_bound(v.heap, v.interned, sa + sb);
                let (w, a) = crate::vm::exec_spec(v, c, Instr { op: OpCode::OpAdd, operand: 0, short: 0, next: 0 });
                assert(w.stack.subrange(0, n - 2) =~= v.stack.subrange(0, n - 2));
            }
        }
    }
}

/// Returning hands the value on top of the stack to the caller: the callee's slots,
/// from its base up, give way to that value and the call ends; returning from the
/// last call finishes the program.
pub proof fn law_return_value(v: VmView, c: crate::chunk::ChunkView)
    requires
        v.stack.len() >= 1,
        v.frames.len() >= 1,
        v.frames.last().stack_base <= v.stack.len() - 1,
    ensures
        ({
            let (w, a) = crate::vm::exec_spec(v, c, Instr { op: OpCode::OpReturn, operand: 0, short: 0, next: 0 });
            let base = v.frames.last().stack_base as int;
            &&& w.frames == v.frames.drop_last()
            &&& v.frames.len() >= 2 ==> a == Action::Continue && w.stack == v.stack.subrange(0, base).push(v.stack.last())
            &&& v.frames.len() == 1 ==> a == Action::Finished
        }),
{
    let base = v.frames.last().stack_base as int;
    let n = v.stack.len() as int;
    assert(v.stack.drop_last().subrange(0, base) =~= v.stack.subrange(0, base));
}

// ── Globals ──────────────────────────────────────────────────────────────────

/// Finding a global depends on the names alone.
pub proof fn lemma_find_global_names(g1: Seq<(usize, Value)>, g2: Seq<(usize, Value)>, name: usize)
    requires
        g1.len() == g2.len(),
        forall|k: int| 0 <= k < g1.len() ==> #[trigger] g1[k].0 == g2[k].0,
    ensures
        find_global(g1, name) == find_global(g2, name),
    decreases g1.len(),
{
    if g1.len() > 0 {
        lemma_find_global_names(g1.drop_last(), g2.drop_last(), name);
        assert(g1.last().0 == g2[g2.len() - 1].0);
    }
}

/// Reading a global gives what was last written to it, and writing one global leaves
/// the others as they were.
pub proof fn law_global_read_after_write(globals: Seq<(usize, Value)>, name: usize, value: Value, other: usize)
    ensures
        global_value(global_insert(globals, name, value), name) == Some(value),
        other != name ==> global_value(global_insert(globals, name, value), other) == global_value(globals, other),
{
    lemma_find_global_bound(globals, name);
    let g2 = global_insert(globals, name, value);
    match find_global(globals, name) {
        Some(i) => {
            assert forall|k: int| 0 <= k < globals.len() implies #[trigger] globals[k].0 == g2[k].0 by {}
            lemma_find_global_names(globals, g2, name);
            lemma_find_global_names(globals, g2, other);
            lemma_find_global_bound(globals, other);
        },
        None => {
            assert(g2.drop_last() =~= globals);
            lemma_find_global_bound(globals, other);
        },
    }
}

// ── Constants ────────────────────────────────────────────────────────────────

/// The first constant found under a key has that key.
pub proof fn lemma_first_with_key_sound(cs: Seq<Value>, key: (u8, u64))
    ensures
        first_with_key(cs, key) matches Some(i) ==> 0 <= i < cs.len() && constant_key(cs[i]) == Some(key),
    decreases cs.len(),
{
    if cs.len() > 0 {
        lemma_first_with_key_sound(cs.drop_last(), key);
    }
}

/// A number or an object written twice to a constant pool is stored once: the second
/// write gives the same index and leaves the pool as it was, and the index names the
/// value. A pool of at most 256 entries never grows past 256: a new value is refused
/// exactly when the pool is full.
pub proof fn law_constant_shared(cs: Seq<Value>, v: Value)
    requires
        constant_key(v) is Some,
        cs.len() <= 256,
    ensures
        match write_constant_spec(cs, v) {
            Some((cs1, i1)) => {
                &&& write_constant_spec(cs1, v) == Some((cs1, i1))
                &&& 0 <= i1 < cs1.len() <= 256
                &&& cs1[i1] == v
            },
            None => cs.len() == 256,
        },
{
    let k = constant_key(v)->0;
    lemma_first_with_key_sound(cs, k);
    match first_with_key(cs, k) {
        Some(i) => {
            let c = cs[i];
            assert(constant_key(c) == Some(k));
            assert(c == v) by {
                match (c, v) {
                    (Value::Number(a), Value::Number(b)) => {},
                    (Value::Object(a), Value::Object(b)) => {},
                    _ => {},
                }
            }
        },
        None => {
            if cs.len() < 256 {
                let cs1 = cs.push(v);
                assert(cs1.drop_last() =~= cs);
                assert(first_with_key(cs1, k) == Some(cs.len() as int));
            }
        },
    }
}

// ── Compile errors ───────────────────────────────────────────────────────────

/// While the parser recovers from an error, further errors are not recorded: after one
/// report, a second one changes nothing.
pub proof fn law_errors_suppressed(p: ParserView, t1: crate::token::Token, m1: Seq<char>, t2: crate::token::Token, m2: Seq<char>)
    ensures
        report(report(p, t1, m1), t2, m2) == report(p, t1, m1),
{
}

/// Outside recovery, a report records exactly one diagnostic and marks the error.
pub proof fn law_error_recorded(p: ParserView, t: crate::token::Token, m: Seq<char>)
    requires
        !p.panic_mode,
    ensures
        report(p, t, m).diagnostics.len() == p.diagnostics.len() + 1,
        report(p, t, m).had_error,
        report(p, t, m).panic_mode,
{
}

/// Error recovery stops at a statement boundary: just after a semicolon, before a
/// statement keyword, or at the end of the source.
pub proof fn law_recovery_boundary(p: ParserView)
    ensures
        ({
            let q = synchronize_spec(p);
            q.current.token_type == TokenType::EOF || q.previous.token_type == TokenType::Semicolon
                || starts_statement(q.current.token_type)
        }),
    decreases progress_of(p),
{
    if !(p.current.token_type == TokenType::EOF || p.previous.token_type == TokenType::Semicolon
        || starts_statement(p.current.token_type)) {
        lemma_fetch_progress(ParserView { previous: p.current, ..p });
        law_recovery_boundary(advance_spec(p));
    }
}

// ── Tokens ───────────────────────────────────────────────────────────────────

/// The number of newline bytes in `t`.
pub open spec fn count_newlines(t: Seq<u8>) -> nat
    decreases t.len(),
{
    if t.len() == 0 {
        0
    } else {
        count_newlines(t.drop_last()) + if t.last() == 10 {
            1nat
        } else {
            0nat
        }
    }
}

/// Newlines of adjacent pieces add up.
pub proof fn lemma_count_split(s: Seq<u8>, a: int, b: int, c: int)
    requires
        0 <= a <= b <= c <= s.len(),
    ensures
        count_newlines(s.subrange(a, c)) == count_newlines(s.subrange(a, b)) + count_newlines(s.subrange(b, c)),
    decreases c - b,
{
    if c > b {
        lemma_count_split(s, a, b, c - 1);
        assert(s.subrange(a, c).drop_last() =~= s.subrange(a, c - 1));
        assert(s.subrange(b, c).drop_last() =~= s.subrange(b, c - 1));
    } else {
        assert(s.subrange(b, c).len() == 0);
    }
}

/// A character that does not start with a newline byte holds none.
pub proof fn lemma_char_no_newline(s: Seq<u8>, p: int)
    requires
        0 <= p < s.len(),
        valid_utf8(s.subrange(p, s.len() as int)),
        s[p] != 10,
    ensures
        p + char_width(s[p]) <= s.len(),
        valid_utf8(s.subrange(p + char_width(s[p]), s.len() as int)),
        count_newlines(s.subrange(p, p + char_width(s[p]))) == 0,
{
    lemma_char_step(s, p);
    let t = s.subrange(p, s.len() as int);
    let w = char_width(s[p]);
    assert(t[0] == s[p]);
    assert(valid_first_scalar(t));
    let h = s.subrange(p, p + w);
    assert forall|i: int| 0 <= i < h.len() implies #[trigger] h[i] != 10 by {
        assert(h[i] == t[i]);
    }
    lemma_prefix_no_newline(h, w);
    assert(h.subrange(0, w) =~= h);
}

/// A piece with no newline byte counts none.
pub proof fn lemma_prefix_no_newline(h: Seq<u8>, n: int)
    requires
        0 <= n <= h.len(),
        forall|i: int| 0 <= i < h.len() ==> h[i] != 10,
    ensures
        count_newlines(h.subrange(0, n)) == 0,
    decreases n,
{
    if n > 0 {
        lemma_prefix_no_newline(h, n - 1);
        assert(h.subrange(0, n).drop_last() =~= h.subrange(0, n - 1));
    }
}

/// A line comment holds no newline and ends inside the source.
pub proof fn lemma_comment_no_newline(s: Seq<u8>, p: int)
    requires
        0 <= p <= s.len(),
        valid_utf8(s.subrange(p, s.len() as int)),
    ensures
        p <= comment_end(s, p) <= s.len(),
        count_newlines(s.subrange(p, comment_end(s, p))) == 0,
        valid_utf8(s.subrange(comment_end(s, p), s.len() as int)),
    decreases rest_len(s, p),
{
    if p < s.len() && s[p] != 10 {
        lemma_char_no_newline(s, p);
        let w = char_width(s[p]);
        lemma_comment_no_newline(s, p + w);
        lemma_count_split(s, p, p + w, comment_end(s, p + w));
    } else {
        assert(s.subrange(p, p).len() == 0);
    }
}

/// What the scanner skips before a token: from `p` it moves over blanks, newlines and
/// line comments, counting each newline into the line, and stops at the end of the
/// source or at a byte that starts none of them; skipping again there moves nothing.
pub proof fn law_skip_trivia(s: Seq<u8>, p: int, line: int)
    requires
        0 <= p <= s.len(),
        valid_utf8(s.subrange(p, s.len() as int)),
    ensures
        ({
            let (q, l) = skip_trivia(s, p, line);
            &&& p <= q <= s.len()
            &&& l == line + count_newlines(s.subrange(p, q))
            &&& q < s.len() ==> s[q] != 32 && s[q] != 13 && s[q] != 9 && s[q] != 10 && !(s[q] == 47 && byte_at(
                s,
                q + 1,
            ) == 47)
            &&& skip_trivia(s, q, l) == (q, l)
        }),
    decreases rest_len(s, p),
{
    if p >= s.len() {
        assert(s.subrange(p, p).len() == 0);
        assert(count_newlines(s.subrange(p, p)) == 0);
    } else if s[p] == 32 || s[p] == 13 || s[p] == 9 || s[p] == 10 {
        lemma_char_step(s, p);
        law_skip_trivia(s, p + 1, if s[p] == 10 { line + 1 } else { line });
        let q = skip_trivia(s, p, line).0;
        lemma_count_split(s, p, p + 1, q);
        let one = s.subrange(p, p + 1);
        assert(one.drop_last().len() == 0);
        assert(count_newlines(one.drop_last()) == 0);
        assert(one.last() == s[p]);
        assert(count_newlines(one) == if s[p] == 10 { 1nat } else { 0nat });
    } else if s[p] == 47 && byte_at(s, p + 1) == 47 {
        lemma_comment_no_newline(s, p);
        lemma_comment_end_grows(s, p + char_width(s[p]));
        let ce = comment_end(s, p);
        assert(ce == comment_end(s, p + char_width(s[p])));
        if ce > p {
            law_skip_trivia(s, ce, line);
            let q = skip_trivia(s, p, line).0;
            lemma_count_split(s, p, ce, q);
        } else {
            assert(s.subrange(p, p).len() == 0);
            assert(count_newlines(s.subrange(p, p)) == 0);
        }
    } else {
        assert(s.subrange(p, p).len() == 0);
        assert(count_newlines(s.subrange(p, p)) == 0);
    }
}

/// A piece whose bytes are no newline counts none.
pub proof fn lemma_piece_no_newline(s: Seq<u8>, a: int, b: int)
    requires
        0 <= a <= b <= s.len(),
        forall|i: int| a <= i < b ==> #[trigger] s[i] != 10,
    ensures
        count_newlines(s.subrange(a, b)) == 0,
{
    let h = s.subrange(a, b);
    assert forall|i: int| 0 <= i < h.len() implies #[trigger] h[i] != 10 by {
        assert(h[i] == s[a + i]);
    }
    lemma_prefix_no_newline(h, h.len() as int);
    assert(h.subrange(0, h.len() as int) =~= h);
}

/// A run of digits holds no newline and stays in the source.
pub proof fn lemma_digits_run(s: Seq<u8>, p: int)
    requires
        0 <= p <= s.len(),
    ensures
        p <= digits_end(s, p) <= s.len(),
        forall|i: int| p <= i < digits_end(s, p) ==> #[trigger] s[i] != 10,
    decreases s.len() - p,
{
    if 0 <= p < s.len() && is_digit_byte(s[p]) {
        lemma_digits_run(s, p + 1);
    }
}

/// A run of letters, digits and underscores holds no newline and stays in the source.
pub proof fn lemma_identifier_run(s: Seq<u8>, p: int)
    requires
        0 <= p <= s.len(),
    ensures
        p <= identifier_end(s, p) <= s.len(),
        forall|i: int| p <= i < identifier_end(s, p) ==> #[trigger] s[i] != 10,
    decreases s.len() - p,
{
    if 0 <= p < s.len() && is_alphanumeric_byte(s[p]) {
        lemma_identifier_run(s, p + 1);
    }
}

/// The body of a string literal stays in the source, and the line it reaches counts
/// its newlines.
pub proof fn lemma_string_run(s: Seq<u8>, p: int, line: int)
    requires
        0 <= p <= s.len(),
        valid_utf8(s.subrange(p, s.len() as int)),
    ensures
        p <= string_end(s, p, line).0 <= s.len(),
        string_end(s, p, line).1 == line + count_newlines(s.subrange(p, string_end(s, p, line).0)),
    decreases rest_len(s, p),
{
    if p >= s.len() || s[p] == 34 {
        assert(s.subrange(p, p).len() == 0);
        assert(count_newlines(s.subrange(p, p)) == 0);
    } else if s[p] == 10 {
        lemma_char_step(s, p);
        lemma_string_run(s, p + 1, line + 1);
        let e = string_end(s, p, line).0;
        lemma_count_split(s, p, p + 1, e);
        let one = s.subrange(p, p + 1);
        assert(one.drop_last().len() == 0);
        assert(count_newlines(one.drop_last()) == 0);
        assert(one.last() == s[p]);
    } else {
        lemma_char_no_newline(s, p);
        let w = char_width(s[p]);
        lemma_string_run(s, p + w, line);
        let e = string_end(s, p, line).0;
        lemma_count_split(s, p, p + w, e);
    }
}

/// Every token accounts for the lines it spans: from `p`, the scanner skips blanks and
/// comments (`law_skip_trivia`), the token starts where they end and ends where the
/// scanner stops, it takes no bytes exactly when it is the end of the source, and the
/// line reached is the starting line plus the newlines in everything read.
pub proof fn law_token_lines(s: Seq<u8>, p: int, line: int)
    requires
        0 <= p <= s.len(),
        valid_utf8(s.subrange(p, s.len() as int)),
        s.len() < usize::MAX,
    ensures
        ({
            let (t, e, l) = lex_token(s, p, line);
            let (q, l0) = skip_trivia(s, p, line);
            &&& p <= q == t.start <= e <= s.len()
            &&& t.start + t.length == e
            &&& (t.token_type == TokenType::EOF) == (t.length == 0)
            &&& l == line + count_newlines(s.subrange(p, e))
        }),
{
    law_skip_trivia(s, p, line);
    let (q, l0) = skip_trivia(s, p, line);
    lemma_skip_valid(s, p, line);
    let (t, e, l) = lex_token(s, p, line);
    if q < s.len() {
        let c = s[q];
        assert(c != 10);
        if is_digit_byte(c) {
            lemma_digits_run(s, q + 1);
            let d = digits_end(s, q + 1);
            if byte_at(s, d) == 46 && is_digit_byte(byte_at(s, d + 1)) {
                lemma_digits_run(s, d + 1);
            }
            lemma_piece_no_newline(s, q, e);
        } else if is_alpha_byte(c) {
            lemma_identifier_run(s, q + 1);
            lemma_piece_no_newline(s, q, e);
            assert(keyword_type(s.subrange(q, e)) != TokenType::EOF);
        } else if c == 34 {
            lemma_char_step(s, q);
            lemma_string_run(s, q + 1, l0);
            let se = string_end(s, q + 1, l0).0;
            lemma_count_split(s, q, q + 1, se);
            lemma_piece_no_newline(s, q, q + 1);
            if se < s.len() {
                lemma_count_split(s, q, se, se + 1);
                crate::compiler::parser::lemma_string_end_quote(s, q + 1, l0);
                lemma_piece_no_newline(s, se, se + 1);
            }
        } else if punctuation(c, byte_at(s, q + 1)) is Some {
            let n = punctuation(c, byte_at(s, q + 1)).unwrap().1;
            assert(punctuation(c, byte_at(s, q + 1)).unwrap().0 != TokenType::EOF);
            assert(n == 1 || byte_at(s, q + 1) != 10);
            assert(n == 2 ==> q + 1 < s.len());
            lemma_piece_no_newline(s, q, q + n);
        } else {
            lemma_char_no_newline(s, q);
        }
        lemma_count_split(s, p, q, e);
    } else {
        assert(s.subrange(q, e).len() == 0);
        assert(count_newlines(s.subrange(q, e)) == 0);
        lemma_count_split(s, p, q, e);
    }
}

/// What is left after the trivia is still valid UTF-8.
pub proof fn lemma_skip_valid(s: Seq<u8>, p: int, line: int)
    requires
        0 <= p <= s.len(),
        valid_utf8(s.subrange(p, s.len() as int)),
    ensures
        valid_utf8(s.subrange(skip_trivia(s, p, line).0, s.len() as int)),
    decreases rest_len(s, p),
{
    if p >= s.len() {
    } else if s[p] == 32 || s[p] == 13 || s[p] == 9 || s[p] == 10 {
        lemma_char_step(s, p);
        lemma_skip_valid(s, p + 1, if s[p] == 10 { line + 1 } else { line });
    } else if s[p] == 47 && byte_at(s, p + 1) == 47 {
        lemma_comment_no_newline(s, p);
        if comment_end(s, p) > p {
            lemma_skip_valid(s, comment_end(s, p), line);
        }
    }
}

/// A run of digits is digits.
pub proof fn lemma_digits_all(s: Seq<u8>, p: int)
    requires
        0 <= p <= s.len(),
    ensures
        p <= digits_end(s, p) <= s.len(),
        forall|i: int| p <= i < digits_end(s, p) ==> is_digit_byte(#[trigger] s[i]),
    decreases s.len() - p,
{
    if 0 <= p < s.len() && is_digit_byte(s[p]) {
        lemma_digits_all(s, p + 1);
    }
}

/// A run of letters, digits and underscores is that.
pub proof fn lemma_identifier_all(s: Seq<u8>, p: int)
    requires
        0 <= p <= s.len(),
    ensures
        p <= identifier_end(s, p) <= s.len(),
        forall|i: int| p <= i < identifier_end(s, p) ==> is_alphanumeric_byte(#[trigger] s[i]),
    decreases s.len() - p,
{
    if 0 <= p < s.len() && is_alphanumeric_byte(s[p]) {
        lemma_identifier_all(s, p + 1);
    }
}

/// The shape of the tokens the scanner reads: a number is digits, with at most one dot
/// that has digits on both sides; an identifier or keyword starts with a letter or an
/// underscore and goes on with letters, digits and underscores, and it is a keyword
/// exactly as its text says; a string literal is enclosed in quotes.
pub proof fn law_token_shape(s: Seq<u8>, p: int, line: int)
    requires
        0 <= p <= s.len(),
        s.len() < usize::MAX,
    ensures
        ({
            let t = lex_token(s, p, line).0;
            let a = t.start as int;
            let b = t.start + t.length;
            let w = s.subrange(a, b);
            &&& t.token_type == TokenType::Number ==> {
                &&& b <= s.len()
                &&& w.len() >= 1
                &&& is_digit_byte(w[0])
                &&& is_digit_byte(w.last())
                &&& forall|i: int| 0 <= i < w.len() ==> is_digit_byte(#[trigger] w[i]) || (w[i] == 46
                    && 0 < i < w.len() - 1 && forall|j: int| 0 <= j < w.len() && j != i ==> is_digit_byte(#[trigger] w[j]))
            }
            &&& t.token_type == TokenType::Identifier ==> b <= s.len() && w.len() >= 1 && is_alpha_byte(w[0])
                && forall|i: int| 0 <= i < w.len() ==> is_alphanumeric_byte(#[trigger] w[i])
            &&& is_alpha_byte(byte_at(s, skip_trivia(s, p, line).0)) ==> t.token_type == keyword_type(w)
            &&& crate::compiler::parser::quoted(s, t)
        }),
{
    lemma_skip_trivia_grows_law(s, p, line);
    crate::compiler::parser::lemma_lex_quoted(s, p, line);
    let (q, l) = skip_trivia(s, p, line);
    if q < s.len() {
        let c = s[q];
        if is_digit_byte(c) {
            lemma_digits_all(s, q + 1);
            let d = digits_end(s, q + 1);
            let t = lex_token(s, p, line).0;
            let w = s.subrange(q, t.start + t.length);
            if byte_at(s, d) == 46 && is_digit_byte(byte_at(s, d + 1)) {
                lemma_digits_all(s, d + 1);
                lemma_digits_all(s, d + 2);
                let e = digits_end(s, d + 1);
                assert(e == digits_end(s, d + 2));
                assert(w.len() == e - q);
                assert forall|k: int| q <= k < e && k != d implies is_digit_byte(#[trigger] s[k]) by {}
                assert forall|i: int| 0 <= i < w.len() implies is_digit_byte(#[trigger] w[i]) || (w[i] == 46
                    && 0 < i < w.len() - 1 && forall|j: int| 0 <= j < w.len() && j != i ==> is_digit_byte(#[trigger] w[j])) by {
                    assert(w[i] == s[q + i]);
                    if q + i == d {
                        assert forall|j: int| 0 <= j < w.len() && j != i implies is_digit_byte(#[trigger] w[j]) by {
                            assert(w[j] == s[q + j]);
                        }
                    }
                }
                assert(w.last() == s[e - 1]);
            } else {
                assert forall|i: int| 0 <= i < w.len() implies is_digit_byte(#[trigger] w[i]) by {
                    assert(w[i] == s[q + i]);
                }
            }
        } else if is_alpha_byte(c) {
            lemma_identifier_all(s, q + 1);
            let t = lex_token(s, p, line).0;
            let w = s.subrange(q, t.start + t.length);
            assert forall|i: int| 0 <= i < w.len() implies is_alphanumeric_byte(#[trigger] w[i]) by {
                assert(w[i] == s[q + i]);
            }
        } else if punctuation(c, byte_at(s, q + 1)) is Some {
            assert(punctuation(c, byte_at(s, q + 1)).unwrap().0 != TokenType::Identifier);
            assert(punctuation(c, byte_at(s, q + 1)).unwrap().0 != TokenType::Number);
        }
    }
}

/// Skipping never moves back.
pub proof fn lemma_skip_trivia_grows_law(s: Seq<u8>, p: int, line: int)
    ensures
        skip_trivia(s, p, line).0 >= p,
{
    crate::compiler::parser::lemma_skip_trivia_grows(s, p, line);
}

/// The text of a string literal is what lies between its quotes: the literal's bytes
/// are a quote, the text's encoding and a quote.
pub proof fn law_string_text(s: Seq<u8>, t: crate::token::Token)
    requires
        t.token_type == TokenType::String,
        crate::compiler::parser::quoted(s, t),
        crate::scanner::token_in(s, t),
    ensures
        s.subrange(t.start as int, t.start + t.length) == seq![34u8] + encode_utf8(
            crate::compiler::expression::string_text(s, t.start as int, t.length as int),
        ) + seq![34u8],
{
    let a = t.start as int;
    let b = t.start + t.length;
    let w = s.subrange(a, b);
    let n = w.len() as int;
    assert(w[n - 1] == 34);
    is_char_boundary_iff_not_is_continuation_byte(w, n - 1);
    valid_utf8_split(w, n - 1);
    let f = w.subrange(0, n - 1);
    assert(f[0] == 34);
    reveal_with_fuel(is_char_boundary, 2);
    assert(length_of_first_scalar(f) == 1);
    assert(is_char_boundary(f, 1));
    valid_utf8_split(f, 1);
    let inner = f.subrange(1, f.len() as int);
    assert(inner =~= s.subrange(a + 1, b - 1));
    decode_utf8_encode_utf8(inner);
    assert(w =~= seq![34u8] + inner + seq![34u8]);
}

/// The scanner yields the end-of-source token exactly when only blanks, newlines and
/// comments are left before the end; that token takes no bytes, and scanning again
/// from after it yields it again.
pub proof fn law_end_of_source(s: Seq<u8>, p: int, line: int)
    ensures
        ({
            let (t, e, l) = lex_token(s, p, line);
            &&& (t.token_type == TokenType::EOF) == (skip_trivia(s, p, line).0 >= s.len())
            &&& t.token_type == TokenType::EOF ==> t.length == 0 && e == skip_trivia(s, p, line).0 && lex_token(
                s,
                e,
                l,
            ) == (t, e, l)
        }),
{
    let (q, l) = skip_trivia(s, p, line);
    if q < s.len() {
        let c = s[q];
        if is_digit_byte(c) {
        } else if is_alpha_byte(c) {
            let e = identifier_end(s, q + 1);
            assert(keyword_type(s.subrange(q, e)) != TokenType::EOF);
        } else if c == 34 {
        } else if punctuation(c, byte_at(s, q + 1)) is Some {
            assert(punctuation(c, byte_at(s, q + 1)).unwrap().0 != TokenType::EOF);
        }
    } else {
        assert(skip_trivia(s, q, l) == (q, l));
    }
}

/// At the end of the source the scanner yields the end-of-source token, without
/// moving: it does so for ever.
pub proof fn law_scanner_end(s: Seq<u8>, line: int)
    ensures
        lex_token(s, s.len() as int, line) == (mk_token(TokenType::EOF, s.len() as int, s.len() as int, line), s.len() as int, line),
{
    assert(skip_trivia(s, s.len() as int, line) == (s.len() as int, line));
}

// ── Numbers ──────────────────────────────────────────────────────────────────

/// A number equals itself unless it is NaN.
pub proof fn law_number_equal_itself(a: u64)
    ensures
        number_eq(a, a) <==> !is_nan_bits(a),
{
}

/// The language's equality on values: values that are not numbers are equal exactly
/// when they are the same value (the same boolean, both `nil`, the same object);
/// numbers are equal exactly when they are equal as doubles; a number never equals
/// anything else.
pub proof fn law_value_equality(a: Value, b: Value)
    ensures
        !(a is Number) ==> (values_equal(a, b) <==> a == b),
        a is Number && b is Number ==> (values_equal(a, b) <==> number_eq(a->Number_0, b->Number_0)),
        a is Number && !(b is Number) ==> !values_equal(a, b),
        forall|x: bool, y: bool| #[trigger] values_equal(Value::Bool(x), Value::Bool(y)) <==> x == y,
{
}

/// Equality of numbers, and of values, is symmetric.
pub proof fn law_equality_symmetric(a: Value, b: Value)
    ensures
        values_equal(a, b) == values_equal(b, a),
{
}

/// Numbers that are not NaN are ordered: exactly one of `a < b`, `a == b`, `b < a`
/// holds. A NaN is neither less than, equal to, nor greater than anything.
pub proof fn law_number_order(a: u64, b: u64)
    ensures
        !is_nan_bits(a) && !is_nan_bits(b) ==> (number_lt(a, b) || number_eq(a, b) || number_lt(b, a)),
        !(number_lt(a, b) && number_eq(a, b)),
        !(number_lt(a, b) && number_lt(b, a)),
        is_nan_bits(a) ==> !number_lt(a, b) && !number_lt(b, a) && !number_eq(a, b),
{
}

/// `<` on numbers is transitive.
pub proof fn law_number_less_transitive(a: u64, b: u64, c: u64)
    requires
        number_lt(a, b),
        number_lt(b, c),
    ensures
        number_lt(a, c),
{
}

/// Negating twice gives the number back, and negation keeps NaN and the magnitude.
pub proof fn law_negate_twice(b: u64)
    ensures
        negate_bits(negate_bits(b)) == b,
        is_nan_bits(negate_bits(b)) == is_nan_bits(b),
        order_key(negate_bits(b)) == -order_key(b),
{
    assert(negate_bits(negate_bits(b)) == b) by (bit_vector)
        requires
            SIGN_BIT == 0x8000_0000_0000_0000u64,
    ;
    assert((negate_bits(b) & EXPONENT_BITS) == (b & EXPONENT_BITS) && (negate_bits(b) & FRACTION_BITS) == (b
        & FRACTION_BITS) && (negate_bits(b) & MAGNITUDE_BITS) == (b & MAGNITUDE_BITS) && ((negate_bits(b) & SIGN_BIT
        != 0) == (b & SIGN_BIT == 0))) by (bit_vector)
        requires
            SIGN_BIT == 0x8000_0000_0000_0000u64,
            EXPONENT_BITS == 0x7ff0_0000_0000_0000u64,
            FRACTION_BITS == 0x000f_ffff_ffff_ffffu64,
            MAGNITUDE_BITS == 0x7fff_ffff_ffff_ffffu64,
    ;
}

} // verus!
