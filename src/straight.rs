//! Programs without loops: what they do, and that every choice of rewrites
//! compiles them to programs that do the same.
use crate::compiler::{build, compiled, feed, flush_run, Build};
use crate::instr::{is_fusible, op_of, plain, wadd, wsub, Instr, Op, Options};
use crate::machine::{initial_state, next, run_from, state_ok, Action, MachineState, TAPE_LEN};
use vstd::prelude::*;

verus! {

/// Tape, data pointer, unread input and written output.
pub struct Io {
    pub tape: Seq<u8>,
    pub dp: int,
    pub input: Seq<u8>,
    pub out: Seq<u8>,
}

/// What one `Add`, `Sub`, `Left`, `Right`, `PutCh` or `GetCh` does.
pub open spec fn exec_one(i: Instr, c: Io) -> Io {
    let v = c.tape[c.dp];
    match i.opcode {
        Op::Add => Io { tape: c.tape.update(c.dp, wadd(v, i.arg)), ..c },
        Op::Sub => Io { tape: c.tape.update(c.dp, wsub(v, i.arg)), ..c },
        Op::Left => Io { dp: if c.dp >= i.arg { c.dp - i.arg } else { 0 }, ..c },
        Op::Right => Io { dp: if c.dp + i.arg < TAPE_LEN { c.dp + i.arg } else { TAPE_LEN - 1 }, ..c },
        Op::PutCh => Io { out: c.out + Seq::new(i.arg as nat, |k: int| v), ..c },
        Op::GetCh => {
            let k = if i.arg <= c.input.len() { i.arg as int } else { c.input.len() as int };
            Io {
                tape: if k > 0 { c.tape.update(c.dp, c.input[k - 1]) } else { c.tape },
                input: c.input.skip(k),
                ..c
            }
        },
        _ => c,
    }
}

/// What a sequence of such instructions does, first to last.
pub open spec fn exec_seq(code: Seq<Instr>, c: Io) -> Io
    decreases code.len(),
{
    if code.len() == 0 {
        c
    } else {
        exec_seq(code.drop_first(), exec_one(code[0], c))
    }
}

/// What loop-free source does, one symbol at a time.
pub open spec fn exec_src(s: Seq<u8>, c: Io) -> Io
    decreases s.len(),
{
    if s.len() == 0 {
        c
    } else {
        let p = exec_src(s.drop_last(), c);
        match op_of(s.last()) {
            Some(op) => exec_one(plain(op, 1), p),
            None => p,
        }
    }
}

/// Source without `[` and `]`.
pub open spec fn loop_free(s: Seq<u8>) -> bool {
    forall|k: int| 0 <= k < s.len() ==> #[trigger] s[k] != 91 && s[k] != 93
}

/// Every rewrite switched off.
pub open spec fn no_rewrites() -> Options {
    Options {
        fuse_adjacent: false,
        fuse_set_add: false,
        loop_set_zero: false,
        loop_copy_multiply: false,
        loop_seek_lr: false,
        loop_set_jump: false,
    }
}

/// The emitted instructions with the pending run appended.
pub open spec fn pending(b: Build) -> Seq<Instr> {
    if b.acc is Some {
        b.instrs.push(plain(b.acc->0, b.count))
    } else {
        b.instrs
    }
}

/// A well-formed configuration: a full tape with the data pointer on it.
pub open spec fn io_ok(c: Io) -> bool {
    c.tape.len() == TAPE_LEN && 0 <= c.dp < TAPE_LEN
}

proof fn lemma_exec_one_ok(i: Instr, c: Io)
    requires
        io_ok(c),
    ensures
        io_ok(exec_one(i, c)),
{
}

proof fn lemma_exec_seq_push(code: Seq<Instr>, x: Instr, c: Io)
    ensures
        exec_seq(code.push(x), c) == exec_one(x, exec_seq(code, c)),
    decreases code.len(),
{
    if code.len() == 0 {
        assert(code.push(x).drop_first() =~= seq![]);
        assert(code.push(x)[0] == x);
        assert(exec_seq(code.push(x).drop_first(), exec_one(x, c)) == exec_one(x, c));
    } else {
        assert(code.push(x)[0] == code[0]);
        assert(code.push(x).drop_first() =~= code.drop_first().push(x));
        lemma_exec_seq_push(code.drop_first(), x, exec_one(code[0], c));
    }
}

/// A run of `n + 1` does what a run of `n` and then a run of one do.
proof fn lemma_run_split(op: Op, n: u8, c: Io)
    requires
        io_ok(c),
        is_fusible(op),
        n < 255,
    ensures
        exec_one(plain(op, (n + 1) as u8), c) == exec_one(plain(op, 1), exec_one(plain(op, n), c)),
{
    let v = c.tape[c.dp];
    let d = exec_one(plain(op, n), c);
    if op is Add {
        vstd::arithmetic::div_mod::lemma_add_mod_noop(v + n, 1, 256);
        assert(d.tape.update(c.dp, wadd(d.tape[c.dp], 1)) =~= c.tape.update(c.dp, wadd(v, (n + 1) as u8)));
    } else if op is Sub {
        vstd::arithmetic::div_mod::lemma_sub_mod_noop(v - n, 1, 256);
        assert(d.tape.update(c.dp, wsub(d.tape[c.dp], 1)) =~= c.tape.update(c.dp, wsub(v, (n + 1) as u8)));
    } else if op is PutCh {
        assert(c.out + Seq::new((n + 1) as nat, |k: int| v) =~= c.out + Seq::new(n as nat, |k: int| v) + Seq::new(1, |k: int| v));
    } else if op is GetCh {
        let k = if n <= c.input.len() { n as int } else { c.input.len() as int };
        assert(c.input.skip(k).skip(if 1 <= c.input.skip(k).len() { 1int } else { 0 }) =~= c.input.skip(
            if n + 1 <= c.input.len() { n + 1 } else { c.input.len() as int },
        ));
        if k < c.input.len() {
            assert(c.input.skip(k)[0] == c.input[k]);
            assert(c.tape.update(c.dp, c.input[k]) =~= (if k > 0 { c.tape.update(c.dp, c.input[k - 1]) } else { c.tape }).update(c.dp, c.input[k]));
        }
    }
}

/// For loop-free source, the pending program of every compiler state does
/// what the source does.
proof fn lemma_build_straight(s: Seq<u8>, opts: Options, c: Io)
    requires
        loop_free(s),
        io_ok(c),
    ensures
        !build(s, opts).failed,
        build(s, opts).jumps.len() == 0,
        forall|k: int| 0 <= k < build(s, opts).instrs.len() ==> is_fusible(#[trigger] build(s, opts).instrs[k].opcode),
        build(s, opts).acc matches Some(a) ==> is_fusible(a) && build(s, opts).count >= 1,
        build(s, opts).acc is None ==> build(s, opts).count == 0,
        exec_seq(pending(build(s, opts)), c) == exec_src(s, c),
    decreases s.len(),
{
    if s.len() > 0 {
        let t = s.drop_last();
        assert(loop_free(t)) by {
            assert forall|k: int| 0 <= k < t.len() implies #[trigger] t[k] != 91 && t[k] != 93 by {
                assert(t[k] == s[k]);
            }
        }
        lemma_build_straight(t, opts, c);
        let b = build(t, opts);
        let x = s.last();
        assert(x == s[s.len() - 1]);
        lemma_exec_src_ok(t, c);
        let p = exec_src(t, c);
        if op_of(x) is Some {
            let op = op_of(x)->0;
            assert(is_fusible(op));
            if b.acc is Some && (b.acc->0 != op || b.count == 255 || !opts.fuse_adjacent) {
                let a = b.acc->0;
                assert(flush_run(b.instrs, a, b.count, opts) == b.instrs.push(plain(a, b.count)));
                lemma_exec_seq_push(b.instrs.push(plain(a, b.count)), plain(op, 1), c);
                let f = flush_run(b.instrs, a, b.count, opts);
                assert forall|k: int| 0 <= k < f.len() implies is_fusible(#[trigger] f[k].opcode) by {
                    if k < b.instrs.len() {
                        assert(f[k] == b.instrs[k]);
                    }
                }
            } else if b.acc is Some {
                lemma_exec_seq_push(b.instrs, plain(op, b.count), c);
                lemma_exec_seq_push(b.instrs, plain(op, (b.count + 1) as u8), c);
                lemma_exec_src_ok(t, c);
                lemma_exec_seq_ok(b.instrs, c);
                lemma_run_split(op, b.count, exec_seq(b.instrs, c));
            } else {
                lemma_exec_seq_push(b.instrs, plain(op, 1), c);
            }
        }
    }
}

proof fn lemma_exec_src_ok(s: Seq<u8>, c: Io)
    requires
        io_ok(c),
    ensures
        io_ok(exec_src(s, c)),
    decreases s.len(),
{
    if s.len() > 0 {
        lemma_exec_src_ok(s.drop_last(), c);
    }
}

proof fn lemma_exec_seq_ok(code: Seq<Instr>, c: Io)
    requires
        io_ok(c),
    ensures
        io_ok(exec_seq(code, c)),
    decreases code.len(),
{
    if code.len() > 0 {
        lemma_exec_seq_ok(code.drop_first(), exec_one(code[0], c));
    }
}

/// Running jump-free code from instruction `m.ip` to its end takes one step
/// per instruction, halts, and does what `exec_seq` says.
proof fn lemma_run_straight(m: MachineState, code: Seq<Instr>, input: Seq<u8>, out: Seq<u8>)
    requires
        state_ok(m),
        m.ip <= code.len(),
        forall|k: int| 0 <= k < code.len() ==> is_fusible(#[trigger] code[k].opcode),
    ensures
        ({
            let e = exec_seq(code.skip(m.ip), Io { tape: m.tape, dp: m.dp, input, out });
            run_from(m, code, input, out, (code.len() - m.ip + 1) as nat) == (
                MachineState { ip: code.len() as int, dp: e.dp, tape: e.tape },
                e.out,
                Action::Halt,
            )
        }),
    decreases code.len() - m.ip,
{
    let c = Io { tape: m.tape, dp: m.dp, input, out };
    if m.ip == code.len() {
        assert(code.skip(m.ip) =~= seq![]);
        assert(run_from(m, code, input, out, 1) == (m, out, Action::Halt));
    } else {
        let i = code[m.ip];
        assert(code.skip(m.ip).drop_first() =~= code.skip(m.ip + 1));
        assert(code.skip(m.ip)[0] == i);
        let d = exec_one(i, c);
        lemma_exec_one_ok(i, c);
        let m1 = MachineState { ip: m.ip + 1, dp: d.dp, tape: d.tape };
        lemma_run_straight(m1, code, d.input, d.out);
        let fuel = (code.len() - m.ip + 1) as nat;
        let (n1, a) = next(m, code);
        if i.opcode is GetCh {
            assert(a == Action::Read(i.arg));
        } else if i.opcode is PutCh {
            assert(a == Action::Write(m.tape[m.dp], i.arg));
            assert(n1 == m1);
        } else {
            assert(a == Action::Continue);
            assert(n1 == m1);
        }
    }
}

/// A loop-free program compiled with any rewrites halts, after one step per
/// instruction, with the same tape, data pointer and output as the same
/// program compiled with none, on every input.
pub proof fn lemma_loop_free_equivalence(s: Seq<u8>, opts: Options, input: Seq<u8>)
    requires
        loop_free(s),
    ensures
        compiled(s, opts) is Some,
        compiled(s, no_rewrites()) is Some,
        ({
            let a = compiled(s, opts)->0;
            let b = compiled(s, no_rewrites())->0;
            let ra = run_from(initial_state(), a, input, seq![], (a.len() + 1) as nat);
            let rb = run_from(initial_state(), b, input, seq![], (b.len() + 1) as nat);
            &&& ra.2 == Action::Halt
            &&& rb.2 == Action::Halt
            &&& ra.0.tape == rb.0.tape
            &&& ra.0.dp == rb.0.dp
            &&& ra.1 == rb.1
        }),
{
    let m = initial_state();
    let c = Io { tape: m.tape, dp: 0, input, out: seq![] };
    lemma_build_straight(s, opts, c);
    lemma_build_straight(s, no_rewrites(), c);
    let a = compiled(s, opts)->0;
    let b = compiled(s, no_rewrites())->0;
    assert(a == pending(build(s, opts)));
    assert(b == pending(build(s, no_rewrites())));
    assert forall|k: int| 0 <= k < a.len() implies is_fusible(#[trigger] a[k].opcode) by {
        if k < build(s, opts).instrs.len() {
            assert(a[k] == build(s, opts).instrs[k]);
        }
    }
    assert forall|k: int| 0 <= k < b.len() implies is_fusible(#[trigger] b[k].opcode) by {
        if k < build(s, no_rewrites()).instrs.len() {
            assert(b[k] == build(s, no_rewrites()).instrs[k]);
        }
    }
    assert(a.skip(0) =~= a);
    assert(b.skip(0) =~= b);
    lemma_run_straight(m, a, input, seq![]);
    lemma_run_straight(m, b, input, seq![]);
}

} // verus!
