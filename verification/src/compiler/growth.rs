use vstd::prelude::*;
use super::Compiler;
use super::frame::{FunctionCompiler, Local};

verus! {

/// A loop entry `b` continues `a`: same scope depth and target, and the jumps to patch
/// of `a` followed by new ones, each at or after `from`.
pub open spec fn jump_grows(a: (usize, usize, Vec<usize>), b: (usize, usize, Vec<usize>), from: nat) -> bool {
    &&& b.0 == a.0
    &&& b.1 == a.1
    &&& a.2@.len() <= b.2@.len()
    &&& b.2@.subrange(0, a.2@.len() as int) == a.2@
    &&& forall|k: int| a.2@.len() <= k < b.2@.len() ==> b.2@[k] >= from
}

/// Two locals with the same name and scope depth (an inner function may have marked one
/// captured, a declaration may have finished initializing one).
pub open spec fn same_local(x: Local, y: Local) -> bool {
    y.token == x.token && y.depth == x.depth
}

/// `b` keeps the locals of `a` and adds more, declared at scope depth `depth`.
pub open spec fn locals_extend(a: Seq<Local>, b: Seq<Local>, depth: usize) -> bool {
    &&& a.len() <= b.len()
    &&& forall|j: int| 0 <= j < a.len() ==> same_local(#[trigger] a[j], b[j])
    &&& forall|j: int| a.len() <= j < b.len() ==> (#[trigger] b[j]).depth == depth
}

/// `b` keeps the locals of `a`, and no more.
pub open spec fn locals_same(a: Seq<Local>, b: Seq<Local>) -> bool {
    &&& a.len() == b.len()
    &&& forall|j: int| 0 <= j < a.len() ==> same_local(#[trigger] a[j], b[j])
}

/// The frame `b` continues `a`: the same scope depth, kind, name and arity of function, the code of
/// `a` followed by more code, and the same loops, the innermost with at most more jumps
/// to patch in the new code and the others unchanged.
pub open spec fn frame_grows(a: FunctionCompiler, b: FunctionCompiler) -> bool {
    let ac = a.function.chunk@.code;
    let bc = b.function.chunk@.code;
    &&& b.scope_depth == a.scope_depth
    &&& b.function_type == a.function_type
    &&& b.function.name == a.function.name
    &&& b.function.arity == a.function.arity
    &&& ac.len() <= bc.len()
    &&& bc.subrange(0, ac.len() as int) == ac
    &&& b.jumps@.len() == a.jumps@.len()
    &&& forall|j: int| 0 <= j < a.jumps@.len() - 1 ==> #[trigger] b.jumps@[j] == a.jumps@[j]
    &&& forall|j: int| 0 <= j < a.jumps@.len() ==> jump_grows(#[trigger] a.jumps@[j], b.jumps@[j], ac.len())
}

/// The frame `b` of an enclosing function keeps `a`'s function, scopes, loops and
/// number of locals (an inner function may only mark its locals captured).
pub open spec fn frame_kept(a: FunctionCompiler, b: FunctionCompiler) -> bool {
    &&& b.function == a.function
    &&& b.scope_depth == a.scope_depth
    &&& b.jumps == a.jumps
    &&& b.function_type == a.function_type
    &&& locals_same(a.locals@, b.locals@)
}

/// What parsing a piece of source does to the compiler: the same source and number
/// literals, no more work left, the enclosing functions kept, the current function's
/// code only appended to, and its locals kept, with new ones declared in the current
/// scope.
pub open spec fn grows(a: Compiler, b: Compiler) -> bool {
    &&& b.numbers == a.numbers
    &&& a.parser.had_error ==> b.parser.had_error
    &&& b.bytes() == a.bytes()
    &&& b.parser.progress() <= a.parser.progress()
    &&& b.frames@.len() == a.frames@.len()
    &&& forall|i: int| 0 <= i < a.frames@.len() - 1 ==> frame_kept(#[trigger] a.frames@[i], b.frames@[i])
    &&& frame_grows(a.cur(), b.cur())
    &&& locals_extend(a.cur().locals@, b.cur().locals@, a.cur().scope_depth)
}

/// Growth that declares nothing: the current function's locals are kept, and no more.
pub open spec fn keeps_locals(a: Compiler, b: Compiler) -> bool {
    &&& grows(a, b)
    &&& b.cur().locals@.len() == a.cur().locals@.len()
}

/// `b` is `a` with one more loop open in the current function: like `grows`, but with
/// an extra loop entry at the end, whose jumps to patch lie in the new code.
pub open spec fn opens_loop(a: Compiler, b: Compiler) -> bool {
    let ac = a.code();
    &&& b.numbers == a.numbers
    &&& a.parser.had_error ==> b.parser.had_error
    &&& b.bytes() == a.bytes()
    &&& b.parser.progress() <= a.parser.progress()
    &&& b.frames@.len() == a.frames@.len()
    &&& forall|i: int| 0 <= i < a.frames@.len() - 1 ==> frame_kept(#[trigger] a.frames@[i], b.frames@[i])
    &&& b.cur().scope_depth == a.cur().scope_depth
    &&& b.cur().function_type == a.cur().function_type
    &&& b.cur().function.name == a.cur().function.name
    &&& b.cur().function.arity == a.cur().function.arity
    &&& ac.len() <= b.code().len()
    &&& b.code().subrange(0, ac.len() as int) == ac
    &&& b.cur().jumps@.len() == a.cur().jumps@.len() + 1
    &&& forall|j: int| 0 <= j < a.cur().jumps@.len() ==> #[trigger] b.cur().jumps@[j] == a.cur().jumps@[j]
    &&& forall|j: int| 0 <= j < a.cur().jumps@.len() ==> jump_grows(#[trigger] a.cur().jumps@[j], b.cur().jumps@[j], ac.len())
    &&& forall|k: int| 0 <= k < b.cur().jumps@.last().2@.len() ==> #[trigger] b.cur().jumps@.last().2@[k] >= ac.len()
    &&& locals_extend(a.cur().locals@, b.cur().locals@, a.cur().scope_depth)
}

/// `b` compiles a function nested in `a`'s current one: one more frame, `a`'s frames
/// kept below it.
pub open spec fn nested_in(a: Compiler, b: Compiler) -> bool {
    &&& b.numbers == a.numbers
    &&& a.parser.had_error ==> b.parser.had_error
    &&& b.bytes() == a.bytes()
    &&& b.parser.progress() <= a.parser.progress()
    &&& b.frames@.len() == a.frames@.len() + 1
    &&& forall|i: int| 0 <= i < a.frames@.len() ==> frame_kept(#[trigger] a.frames@[i], b.frames@[i])
}

pub proof fn lemma_jump_grows_trans(a: (usize, usize, Vec<usize>), b: (usize, usize, Vec<usize>), c: (usize, usize, Vec<usize>), x: nat, y: nat)
    requires
        jump_grows(a, b, x),
        jump_grows(b, c, y),
        x <= y,
    ensures
        jump_grows(a, c, x),
{
    assert(c.2@.subrange(0, a.2@.len() as int) =~= c.2@.subrange(0, b.2@.len() as int).subrange(0, a.2@.len() as int));
    assert forall|k: int| a.2@.len() <= k < c.2@.len() implies c.2@[k] >= x by {
        if k < b.2@.len() {
            assert(c.2@[k] == c.2@.subrange(0, b.2@.len() as int)[k]);
        }
    }
}

pub proof fn lemma_frame_grows_trans(a: FunctionCompiler, b: FunctionCompiler, c: FunctionCompiler)
    requires
        frame_grows(a, b),
        frame_grows(b, c),
    ensures
        frame_grows(a, c),
{
    let ac = a.function.chunk@.code;
    let bc = b.function.chunk@.code;
    let cc = c.function.chunk@.code;
    assert(cc.subrange(0, ac.len() as int) =~= cc.subrange(0, bc.len() as int).subrange(0, ac.len() as int));
    assert forall|j: int| 0 <= j < a.jumps@.len() implies jump_grows(#[trigger] a.jumps@[j], c.jumps@[j], ac.len()) by {
        lemma_jump_grows_trans(a.jumps@[j], b.jumps@[j], c.jumps@[j], ac.len(), bc.len());
    }
}

pub proof fn lemma_frame_kept_grows(a: FunctionCompiler, b: FunctionCompiler)
    requires
        frame_kept(a, b),
    ensures
        frame_grows(a, b),
        locals_extend(a.locals@, b.locals@, a.scope_depth),
{
    let ac = a.function.chunk@.code;
    assert(ac.subrange(0, ac.len() as int) =~= ac);
    assert forall|j: int| 0 <= j < a.jumps@.len() implies jump_grows(#[trigger] a.jumps@[j], b.jumps@[j], ac.len()) by {
        assert(a.jumps@[j].2@.subrange(0, a.jumps@[j].2@.len() as int) =~= a.jumps@[j].2@);
    }
}

pub proof fn lemma_frame_kept_trans(a: FunctionCompiler, b: FunctionCompiler, c: FunctionCompiler)
    requires
        frame_kept(a, b),
        frame_kept(b, c),
    ensures
        frame_kept(a, c),
{
    assert forall|j: int| 0 <= j < a.locals@.len() implies same_local(#[trigger] a.locals@[j], c.locals@[j]) by {
        assert(same_local(a.locals@[j], b.locals@[j]));
        assert(same_local(b.locals@[j], c.locals@[j]));
    }
}

/// Locals kept and extended, twice, are kept and extended.
pub proof fn lemma_locals_extend_trans(a: Seq<Local>, b: Seq<Local>, c: Seq<Local>, depth: usize)
    requires
        locals_extend(a, b, depth),
        locals_extend(b, c, depth),
    ensures
        locals_extend(a, c, depth),
{
    assert forall|j: int| 0 <= j < a.len() implies same_local(#[trigger] a[j], c[j]) by {
        assert(same_local(a[j], b[j]));
        assert(same_local(b[j], c[j]));
    }
    assert forall|j: int| a.len() <= j < c.len() implies (#[trigger] c[j]).depth == depth by {
        if j < b.len() {
            assert(same_local(b[j], c[j]));
            assert(b[j].depth == depth);
        }
    }
}

/// Nothing done is a growth.
pub proof fn lemma_grows_refl(a: Compiler)
    requires
        a.frames@.len() >= 1,
    ensures
        grows(a, a),
        keeps_locals(a, a),
{
    lemma_frame_kept_grows(a.cur(), a.cur());
}

/// Growth composes.
pub proof fn lemma_grows_trans(a: Compiler, b: Compiler, c: Compiler)
    requires
        a.frames@.len() >= 1,
        grows(a, b),
        grows(b, c),
    ensures
        grows(a, c),
        keeps_locals(a, b) && keeps_locals(b, c) ==> keeps_locals(a, c),
{
    lemma_frame_grows_trans(a.cur(), b.cur(), c.cur());
    lemma_locals_extend_trans(a.cur().locals@, b.cur().locals@, c.cur().locals@, a.cur().scope_depth);
    assert forall|i: int| 0 <= i < a.frames@.len() - 1 implies frame_kept(#[trigger] a.frames@[i], c.frames@[i]) by {
        lemma_frame_kept_trans(a.frames@[i], b.frames@[i], c.frames@[i]);
    }
}

/// A loop stays open across growth.
pub proof fn lemma_opens_loop_grows(a: Compiler, b: Compiler, c: Compiler)
    requires
        a.frames@.len() >= 1,
        opens_loop(a, b),
        grows(b, c),
    ensures
        opens_loop(a, c),
{
    let ac = a.code();
    let bc = b.code();
    let cc = c.code();
    assert(cc.subrange(0, ac.len() as int) =~= cc.subrange(0, bc.len() as int).subrange(0, ac.len() as int));
    assert forall|i: int| 0 <= i < a.frames@.len() - 1 implies frame_kept(#[trigger] a.frames@[i], c.frames@[i]) by {
        lemma_frame_kept_trans(a.frames@[i], b.frames@[i], c.frames@[i]);
    }
    assert forall|j: int| 0 <= j < a.cur().jumps@.len() implies jump_grows(#[trigger] a.cur().jumps@[j], c.cur().jumps@[j], ac.len()) by {
        assert(jump_grows(b.cur().jumps@[j], c.cur().jumps@[j], bc.len()));
        lemma_jump_grows_trans(a.cur().jumps@[j], b.cur().jumps@[j], c.cur().jumps@[j], ac.len(), bc.len());
    }
    let l = b.cur().jumps@.len() - 1;
    assert(jump_grows(b.cur().jumps@[l], c.cur().jumps@[l], bc.len()));
    let bs = b.cur().jumps@[l].2@;
    let cs = c.cur().jumps@[l].2@;
    assert(b.cur().jumps@.last() == b.cur().jumps@[l]);
    assert(c.cur().jumps@.last() == c.cur().jumps@[l]);
    assert forall|k: int| 0 <= k < cs.len() implies #[trigger] cs[k] >= ac.len() by {
        if k < bs.len() {
            assert(cs[k] == cs.subrange(0, bs.len() as int)[k]);
            assert(bs[k] >= ac.len());
        }
    }
    lemma_locals_extend_trans(a.cur().locals@, b.cur().locals@, c.cur().locals@, a.cur().scope_depth);
}

/// Closing the loop that `b` opened: dropping its entry leaves a growth of `a`, and
/// its jumps lie in the code after `a`'s.
pub proof fn lemma_close_loop(a: Compiler, b: Compiler, c: Compiler)
    requires
        c.cur().function.name == b.cur().function.name,
        c.cur().function.arity == b.cur().function.arity,
        a.frames@.len() >= 1,
        opens_loop(a, b),
        c.numbers == b.numbers,
        c.parser == b.parser,
        c.frames@.len() == b.frames@.len(),
        forall|i: int| 0 <= i < b.frames@.len() - 1 ==> c.frames@[i] == b.frames@[i],
        c.cur().function == b.cur().function,
        c.cur().scope_depth == b.cur().scope_depth,
        c.cur().function_type == b.cur().function_type,
        c.cur().locals@ == b.cur().locals@,
        c.cur().jumps@ == b.cur().jumps@.drop_last(),
    ensures
        grows(a, c),
        c.cur().jumps@ == a.cur().jumps@,
        c.cur().locals@.len() == a.cur().locals@.len() ==> keeps_locals(a, c),
{
    assert forall|i: int| 0 <= i < a.frames@.len() - 1 implies frame_kept(#[trigger] a.frames@[i], c.frames@[i]) by {
        assert(frame_kept(a.frames@[i], b.frames@[i]));
    }
    assert forall|j: int| 0 <= j < a.cur().jumps@.len() implies jump_grows(#[trigger] a.cur().jumps@[j], c.cur().jumps@[j], a.code().len()) by {
        assert(jump_grows(a.cur().jumps@[j], b.cur().jumps@[j], a.code().len()));
    }
}

/// Growth from `b` by code appended, with the same source, no more work left, and the
/// same locals and other frames.
pub proof fn lemma_append_grows(a: Compiler, b: Compiler, c: Compiler)
    requires
        c.cur().function.name == b.cur().function.name,
        c.cur().function.arity == b.cur().function.arity,
        b.parser.had_error ==> c.parser.had_error,
        a.frames@.len() >= 1,
        grows(a, b),
        c.numbers == b.numbers,
        c.bytes() == b.bytes(),
        c.parser.progress() <= b.parser.progress(),
        c.frames@.len() == b.frames@.len(),
        forall|i: int| 0 <= i < b.frames@.len() - 1 ==> c.frames@[i] == b.frames@[i],
        c.cur().scope_depth == b.cur().scope_depth,
        c.cur().function_type == b.cur().function_type,
        c.cur().jumps == b.cur().jumps,
        c.cur().locals@ == b.cur().locals@,
        b.code().len() <= c.code().len(),
        c.code().subrange(0, b.code().len() as int) == b.code(),
    ensures
        grows(a, c),
        keeps_locals(a, b) ==> keeps_locals(a, c),
{
    assert(frame_grows(b.cur(), c.cur())) by {
        let bc = b.code();
        assert forall|j: int| 0 <= j < b.cur().jumps@.len() implies jump_grows(#[trigger] b.cur().jumps@[j], c.cur().jumps@[j], bc.len()) by {
            assert(b.cur().jumps@[j].2@.subrange(0, b.cur().jumps@[j].2@.len() as int) =~= b.cur().jumps@[j].2@);
        }
    }
    assert forall|i: int| 0 <= i < b.frames@.len() - 1 implies frame_kept(#[trigger] b.frames@[i], c.frames@[i]) by {
        assert(c.frames@[i] == b.frames@[i]);
    }
    lemma_grows_trans(a, b, c);
}

/// Growth from `b` by rewriting bytes at or after the end of `a`'s code.
pub proof fn lemma_patch_grows(a: Compiler, b: Compiler, c: Compiler, offset: int)
    requires
        c.cur().function.name == b.cur().function.name,
        c.cur().function.arity == b.cur().function.arity,
        b.parser.had_error ==> c.parser.had_error,
        a.frames@.len() >= 1,
        grows(a, b),
        c.numbers == b.numbers,
        c.bytes() == b.bytes(),
        c.parser.progress() <= b.parser.progress(),
        c.frames@.len() == b.frames@.len(),
        forall|i: int| 0 <= i < b.frames@.len() - 1 ==> c.frames@[i] == b.frames@[i],
        c.cur().scope_depth == b.cur().scope_depth,
        c.cur().function_type == b.cur().function_type,
        c.cur().jumps == b.cur().jumps,
        c.cur().locals@ == b.cur().locals@,
        a.code().len() <= offset,
        offset <= b.code().len(),
        c.code().len() == b.code().len(),
        c.code().subrange(0, offset) == b.code().subrange(0, offset),
    ensures
        grows(a, c),
        keeps_locals(a, b) ==> keeps_locals(a, c),
{
    let ac = a.code();
    assert(c.code().subrange(0, ac.len() as int) =~= c.code().subrange(0, offset).subrange(0, ac.len() as int));
    assert(b.code().subrange(0, ac.len() as int) =~= b.code().subrange(0, offset).subrange(0, ac.len() as int));
    assert forall|i: int| 0 <= i < a.frames@.len() - 1 implies frame_kept(#[trigger] a.frames@[i], c.frames@[i]) by {
        assert(frame_kept(a.frames@[i], b.frames@[i]));
    }
    assert forall|j: int| 0 <= j < a.cur().jumps@.len() implies jump_grows(#[trigger] a.cur().jumps@[j], c.cur().jumps@[j], ac.len()) by {
        assert(jump_grows(a.cur().jumps@[j], b.cur().jumps@[j], ac.len()));
    }
}

/// Growth from `b` by moving the parser on, nothing else changed.
pub proof fn lemma_parse_grows(a: Compiler, b: Compiler, c: Compiler)
    requires
        b.parser.had_error ==> c.parser.had_error,
        a.frames@.len() >= 1,
        grows(a, b),
        c.numbers == b.numbers,
        c.frames == b.frames,
        c.bytes() == b.bytes(),
        c.parser.progress() <= b.parser.progress(),
    ensures
        grows(a, c),
        keeps_locals(a, b) ==> keeps_locals(a, c),
{
    assert forall|i: int| 0 <= i < a.frames@.len() - 1 implies frame_kept(#[trigger] a.frames@[i], c.frames@[i]) by {
        assert(frame_kept(a.frames@[i], b.frames@[i]));
    }
}

/// Growth from `b` by a step that keeps every frame's code, scopes, loops and locals.
pub proof fn lemma_keeps_grows(a: Compiler, b: Compiler, c: Compiler)
    requires
        a.frames@.len() >= 1,
        grows(a, b),
        Compiler::keeps_code(b, c),
    ensures
        grows(a, c),
        keeps_locals(a, b) ==> keeps_locals(a, c),
{
    assert(c.cur() == c.frames@[c.frames@.len() - 1]);
    assert(frame_kept(b.cur(), c.cur()));
    lemma_frame_kept_grows(b.cur(), c.cur());
    assert forall|i: int| 0 <= i < b.frames@.len() - 1 implies frame_kept(#[trigger] b.frames@[i], c.frames@[i]) by {
        assert(frame_kept(b.frames@[i], c.frames@[i]));
    }
    lemma_grows_trans(a, b, c);
}

/// Growth from `b` by changing the current frame's locals only, keeping them and
/// declaring more in the current scope.
pub proof fn lemma_locals_grows(a: Compiler, b: Compiler, c: Compiler)
    requires
        b.parser.had_error ==> c.parser.had_error,
        a.frames@.len() >= 1,
        grows(a, b),
        c.numbers == b.numbers,
        c.bytes() == b.bytes(),
        c.parser.progress() <= b.parser.progress(),
        c.frames@.len() == b.frames@.len(),
        forall|i: int| 0 <= i < b.frames@.len() - 1 ==> c.frames@[i] == b.frames@[i],
        c.cur().function == b.cur().function,
        c.cur().scope_depth == b.cur().scope_depth,
        c.cur().function_type == b.cur().function_type,
        c.cur().jumps == b.cur().jumps,
        locals_extend(b.cur().locals@, c.cur().locals@, b.cur().scope_depth),
    ensures
        grows(a, c),
{
    assert forall|i: int| 0 <= i < a.frames@.len() - 1 implies frame_kept(#[trigger] a.frames@[i], c.frames@[i]) by {
        assert(frame_kept(a.frames@[i], b.frames@[i]));
    }
    assert forall|j: int| 0 <= j < a.cur().jumps@.len() implies jump_grows(#[trigger] a.cur().jumps@[j], c.cur().jumps@[j], a.code().len()) by {
        assert(jump_grows(a.cur().jumps@[j], b.cur().jumps@[j], a.code().len()));
    }
    lemma_locals_extend_trans(a.cur().locals@, b.cur().locals@, c.cur().locals@, a.cur().scope_depth);
}

/// Counting the locals deeper than `d` from the top stops at the first that is not.
pub proof fn lemma_deeper_extras(s: Seq<Local>, n: int, d: usize)
    requires
        1 <= n <= s.len(),
        s[n - 1].depth <= d,
        forall|j: int| n <= j < s.len() ==> (#[trigger] s[j]).depth > d,
    ensures
        super::deeper_locals(s, d) == s.len() - n,
    decreases s.len(),
{
    if s.len() > n {
        assert(s.drop_last()[n - 1] == s[n - 1]);
        assert forall|j: int| n <= j < s.drop_last().len() implies (#[trigger] s.drop_last()[j]).depth > d by {
            assert(s.drop_last()[j] == s[j]);
        }
        lemma_deeper_extras(s.drop_last(), n, d);
    }
}

/// A scope opened at `b` and closed at `d` leaves a growth of `a` that keeps its
/// locals: closing the scope discards exactly the locals declared in it.
pub proof fn lemma_scope_grows(a: Compiler, b: Compiler, c: Compiler, d: Compiler)
    requires
        d.cur().function.name == c.cur().function.name,
        d.cur().function.arity == c.cur().function.arity,
        a.frames@.len() >= 1,
        a.cur().locals@.len() >= 1,
        forall|j: int| 0 <= j < a.cur().locals@.len() ==> (#[trigger] a.cur().locals@[j]).depth <= a.cur().scope_depth,
        b.numbers == a.numbers,
        b.parser == a.parser,
        b.frames@.len() == a.frames@.len(),
        forall|i: int| 0 <= i < a.frames@.len() - 1 ==> b.frames@[i] == a.frames@[i],
        b.cur().function == a.cur().function,
        b.cur().function_type == a.cur().function_type,
        b.cur().jumps == a.cur().jumps,
        b.cur().locals@ == a.cur().locals@,
        b.cur().scope_depth > a.cur().scope_depth,
        grows(b, c),
        d.numbers == c.numbers,
        d.parser == c.parser,
        d.frames@.len() == c.frames@.len(),
        forall|i: int| 0 <= i < c.frames@.len() - 1 ==> d.frames@[i] == c.frames@[i],
        d.cur().scope_depth == a.cur().scope_depth,
        d.cur().function_type == c.cur().function_type,
        d.cur().jumps == c.cur().jumps,
        d.cur().locals@ == c.cur().locals@.take(
            c.cur().locals@.len() - super::deeper_locals(c.cur().locals@, a.cur().scope_depth),
        ),
        c.code().len() <= d.code().len(),
        d.code().subrange(0, c.code().len() as int) == c.code(),
    ensures
        keeps_locals(a, d),
{
    let ac = a.code();
    let cc = c.code();
    let al = a.cur().locals@;
    let cl = c.cur().locals@;
    let n = al.len() as int;
    assert(d.code().subrange(0, ac.len() as int) =~= d.code().subrange(0, cc.len() as int).subrange(0, ac.len() as int));
    assert forall|i: int| 0 <= i < a.frames@.len() - 1 implies frame_kept(#[trigger] a.frames@[i], d.frames@[i]) by {
        assert(frame_kept(b.frames@[i], c.frames@[i]));
        assert(d.frames@[i] == c.frames@[i]);
    }
    assert forall|j: int| 0 <= j < a.cur().jumps@.len() implies jump_grows(#[trigger] a.cur().jumps@[j], d.cur().jumps@[j], ac.len()) by {
        assert(jump_grows(b.cur().jumps@[j], c.cur().jumps@[j], ac.len()));
    }
    assert(same_local(al[n - 1], cl[n - 1]));
    assert forall|j: int| n <= j < cl.len() implies (#[trigger] cl[j]).depth > a.cur().scope_depth by {
        assert(cl[j].depth == b.cur().scope_depth);
    }
    lemma_deeper_extras(cl, n, a.cur().scope_depth);
    assert forall|j: int| 0 <= j < n implies same_local(#[trigger] al[j], d.cur().locals@[j]) by {
        assert(same_local(al[j], cl[j]));
    }
}

/// A nested function stays nested across growth.
pub proof fn lemma_nested_grows(a: Compiler, x: Compiler, y: Compiler)
    requires
        nested_in(a, x),
        grows(x, y),
    ensures
        nested_in(a, y),
{
    assert forall|i: int| 0 <= i < a.frames@.len() implies frame_kept(#[trigger] a.frames@[i], y.frames@[i]) by {
        lemma_frame_kept_trans(a.frames@[i], x.frames@[i], y.frames@[i]);
    }
}

/// A nested function stays nested when only its own frame changes.
pub proof fn lemma_nested_cur(a: Compiler, x: Compiler, y: Compiler)
    requires
        x.parser.had_error ==> y.parser.had_error,
        nested_in(a, x),
        y.numbers == x.numbers,
        y.bytes() == x.bytes(),
        y.parser.progress() <= x.parser.progress(),
        y.frames@.len() == x.frames@.len(),
        forall|i: int| 0 <= i < x.frames@.len() - 1 ==> y.frames@[i] == x.frames@[i],
    ensures
        nested_in(a, y),
{
    assert forall|i: int| 0 <= i < a.frames@.len() implies frame_kept(#[trigger] a.frames@[i], y.frames@[i]) by {
        assert(frame_kept(a.frames@[i], x.frames@[i]));
        assert(y.frames@[i] == x.frames@[i]);
    }
}

/// Leaving a nested function leaves a growth of the enclosing one, which keeps its
/// locals.
pub proof fn lemma_unnest(a: Compiler, x: Compiler, y: Compiler)
    requires
        x.parser.had_error ==> y.parser.had_error,
        a.frames@.len() >= 1,
        nested_in(a, x),
        y.numbers == x.numbers,
        y.bytes() == x.bytes(),
        y.parser.progress() <= x.parser.progress(),
        y.frames@ == x.frames@.drop_last(),
    ensures
        keeps_locals(a, y),
{
    assert forall|i: int| 0 <= i < a.frames@.len() implies frame_kept(#[trigger] a.frames@[i], y.frames@[i]) by {
        assert(frame_kept(a.frames@[i], x.frames@[i]));
        assert(y.frames@[i] == x.frames@[i]);
    }
    assert(frame_kept(a.frames@[a.frames@.len() - 1], y.frames@[a.frames@.len() - 1]));
    lemma_frame_kept_grows(a.cur(), y.cur());
}

/// Rewriting bytes at or after the end of `a`'s code keeps a loop open.
pub proof fn lemma_patch_opens(a: Compiler, b: Compiler, c: Compiler, offset: int)
    requires
        c.cur().function.name == b.cur().function.name,
        c.cur().function.arity == b.cur().function.arity,
        a.frames@.len() >= 1,
        opens_loop(a, b),
        c.numbers == b.numbers,
        c.parser == b.parser,
        c.frames@.len() == b.frames@.len(),
        forall|i: int| 0 <= i < b.frames@.len() - 1 ==> c.frames@[i] == b.frames@[i],
        c.cur().scope_depth == b.cur().scope_depth,
        c.cur().function_type == b.cur().function_type,
        c.cur().jumps == b.cur().jumps,
        c.cur().locals@ == b.cur().locals@,
        a.code().len() <= offset,
        offset <= b.code().len(),
        c.code().len() == b.code().len(),
        c.code().subrange(0, offset) == b.code().subrange(0, offset),
    ensures
        opens_loop(a, c),
{
    let ac = a.code();
    assert(c.code().subrange(0, ac.len() as int) =~= c.code().subrange(0, offset).subrange(0, ac.len() as int));
    assert(b.code().subrange(0, ac.len() as int) =~= b.code().subrange(0, offset).subrange(0, ac.len() as int));
    assert forall|i: int| 0 <= i < a.frames@.len() - 1 implies frame_kept(#[trigger] a.frames@[i], c.frames@[i]) by {
        assert(frame_kept(a.frames@[i], b.frames@[i]));
    }
    assert forall|j: int| 0 <= j < a.cur().jumps@.len() implies jump_grows(#[trigger] a.cur().jumps@[j], c.cur().jumps@[j], ac.len()) by {
        assert(jump_grows(a.cur().jumps@[j], b.cur().jumps@[j], ac.len()));
    }
}

} // verus!
