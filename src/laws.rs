//! Laws of the compiler's output, proved over its mathematical model.
use crate::compiler::{build, close_loop, compiled, feed, flush_run, Build};
use crate::instr::{is_fusible, op_of, plain, wadd, wsub, Instr, Op, Options};
use crate::optimise::{lemma_optimised_len, lemma_optimised_no_jumps, optimised};
use crate::machine::{next, state_ok, MachineState};
use vstd::prelude::*;

verus! {

/// The `JZ` at `k` jumps forward to a `JNZ` that jumps back by as much.
pub open spec fn jz_linked(code: Seq<Instr>, k: int) -> bool {
    let d = code[k].off as int;
    d > 0 && k + d < code.len() && code[k + d].opcode is JNZ && code[k + d].off == -d
}

/// The `JNZ` at `k` jumps back to a `JZ` that jumps forward by as much.
pub open spec fn jnz_linked(code: Seq<Instr>, k: int) -> bool {
    let d = -(code[k].off as int);
    d > 0 && k - d >= 0 && code[k - d].opcode is JZ && code[k - d].off == d
}

/// Every `JZ` and every `JNZ` of `code` is linked to its partner.
pub open spec fn jumps_paired(code: Seq<Instr>) -> bool {
    forall|k: int|
        0 <= k < code.len() ==> ((#[trigger] code[k]).opcode is JZ ==> jz_linked(code, k)) && (
        code[k].opcode is JNZ ==> jnz_linked(code, k))
}

/// Jumps of a partly compiled program: open `JZ`s are exactly those with
/// offset zero and lie on the stack, closed ones are linked, and no closed
/// loop straddles an open one.
pub open spec fn partly_paired(code: Seq<Instr>, jumps: Seq<usize>) -> bool {
    &&& forall|m: int| 0 <= m < jumps.len() ==> (#[trigger] jumps[m]) < code.len()
    &&& forall|m: int| 0 <= m < jumps.len() ==> code[#[trigger] jumps[m] as int] == plain(Op::JZ, 0)
    &&& forall|m1: int, m2: int| 0 <= m1 < m2 < jumps.len() ==> jumps[m1] < jumps[m2]
    &&& forall|k: int|
        0 <= k < code.len() && (#[trigger] code[k]).opcode is JZ && code[k].off != 0 ==> jz_linked(
            code,
            k,
        )
    &&& forall|k: int|
        0 <= k < code.len() && (#[trigger] code[k]).opcode is JZ && code[k].off == 0 ==> exists|
            m: int,
        | 0 <= m < jumps.len() && jumps[m] == k
    &&& forall|k: int| 0 <= k < code.len() && (#[trigger] code[k]).opcode is JNZ ==> jnz_linked(code, k)
    &&& forall|m: int, k: int|
        0 <= m < jumps.len() && 0 <= k < jumps[m] && (#[trigger] code[k]).opcode is JZ && code[k].off
            != 0 ==> k + code[k].off < #[trigger] jumps[m]
}

/// The instructions emitted so far, counting a pending run as one.
pub open spec fn emitted_len(b: Build) -> int {
    b.instrs.len() + if b.acc is Some {
        1int
    } else {
        0
    }
}

/// A compiler state with well-linked jumps and a fusible pending run.
pub open spec fn build_ok(b: Build) -> bool {
    &&& partly_paired(b.instrs, b.jumps)
    &&& b.acc matches Some(a) ==> is_fusible(a)
}

proof fn lemma_flush_ok(instrs: Seq<Instr>, jumps: Seq<usize>, op: Op, n: u8, opts: Options)
    requires
        partly_paired(instrs, jumps),
        is_fusible(op),
    ensures
        partly_paired(flush_run(instrs, op, n, opts), jumps),
{
    let r = flush_run(instrs, op, n, opts);
    assert(forall|k: int| 0 <= k < instrs.len() && !(instrs[k].opcode is SetCell) ==> r[k] == instrs[k]);
    assert(forall|k: int| 0 <= k < r.len() && (r[k].opcode is JZ || r[k].opcode is JNZ) ==> k < instrs.len() && r[k] == instrs[k]);
}

proof fn lemma_open_ok(instrs: Seq<Instr>, jumps: Seq<usize>)
    requires
        partly_paired(instrs, jumps),
        instrs.len() < usize::MAX,
    ensures
        partly_paired(instrs.push(plain(Op::JZ, 0)), jumps.push(instrs.len() as usize)),
{
    let r = instrs.push(plain(Op::JZ, 0));
    let j = jumps.push(instrs.len() as usize);
    assert forall|k: int| 0 <= k < r.len() && (#[trigger] r[k]).opcode is JZ && r[k].off == 0 implies exists|m: int| 0 <= m < j.len() && j[m] == k by {
        if k == instrs.len() {
            assert(j[jumps.len() as int] == k);
        } else {
            let m = choose|m: int| 0 <= m < jumps.len() && jumps[m] == k;
            assert(j[m] == k);
        }
    }
    assert forall|m: int, k: int| 0 <= m < j.len() && 0 <= k < j[m] && (#[trigger] r[k]).opcode is JZ && r[k].off != 0 implies k + r[k].off < #[trigger] j[m] by {
        assert(r[k] == instrs[k]);
        if m == jumps.len() {
            assert(jz_linked(instrs, k));
        } else {
            assert(j[m] == jumps[m]);
        }
    }
}

proof fn lemma_close_ok(instrs: Seq<Instr>, jumps: Seq<usize>, opts: Options)
    requires
        partly_paired(instrs, jumps),
        jumps.len() > 0,
        instrs.len() < i32::MAX,
        !opts.loop_set_jump,
    ensures
        partly_paired(close_loop(instrs, jumps.last() as int, opts), jumps.drop_last()),
{
    let start = jumps.last() as int;
    let here = instrs.len() as int;
    let d = here - start;
    let closed = instrs.update(start, Instr { opcode: Op::JZ, arg: 0, off: d as i32 }).push(
        Instr { opcode: Op::JNZ, arg: 0, off: (start - here) as i32 },
    );
    let j = jumps.drop_last();
    assert(start < here);
    // Every jump below the last open one stays open and below it.
    assert forall|m: int| 0 <= m < j.len() implies #[trigger] j[m] < start by {
        assert(j[m] == jumps[m]);
        assert(jumps[m] < jumps[jumps.len() - 1]);
    }
    // The closed program is partly paired with the shorter stack.
    assert(partly_paired(closed, j)) by {
        assert forall|k: int| 0 <= k < closed.len() && (#[trigger] closed[k]).opcode is JZ && closed[k].off != 0 implies jz_linked(closed, k) by {
            if k != start {
                assert(closed[k] == instrs[k]);
                assert(jz_linked(instrs, k));
                let t = k + instrs[k].off;
                assert(t != start) by {
                    assert(instrs[start] == plain(Op::JZ, 0));
                }
                assert(closed[t] == instrs[t]);
            }
        }
        assert forall|k: int| 0 <= k < closed.len() && (#[trigger] closed[k]).opcode is JZ && closed[k].off == 0 implies exists|m: int| 0 <= m < j.len() && j[m] == k by {
            assert(k != start && k < here);
            assert(closed[k] == instrs[k]);
            let m = choose|m: int| 0 <= m < jumps.len() && jumps[m] == k;
            assert(m != jumps.len() - 1);
            assert(j[m] == k);
        }
        assert forall|k: int| 0 <= k < closed.len() && (#[trigger] closed[k]).opcode is JNZ implies jnz_linked(closed, k) by {
            if k < here {
                assert(closed[k] == instrs[k]);
                assert(jnz_linked(instrs, k));
                let t = k + instrs[k].off;
                if t == start {
                    assert(instrs[t].off != 0);
                }
                assert(closed[t] == instrs[t]);
            }
        }
        assert forall|m: int, k: int| 0 <= m < j.len() && 0 <= k < j[m] && (#[trigger] closed[k]).opcode is JZ && closed[k].off != 0 implies k + closed[k].off < #[trigger] j[m] by {
            assert(j[m] == jumps[m]);
            assert(j[m] < start);
            assert(closed[k] == instrs[k]);
        }
        assert forall|m: int| 0 <= m < j.len() implies closed[#[trigger] j[m] as int] == plain(Op::JZ, 0) by {
            assert(j[m] == jumps[m]);
        }
        assert forall|m1: int, m2: int| 0 <= m1 < m2 < j.len() implies j[m1] < j[m2] by {
            assert(j[m1] == jumps[m1] && j[m2] == jumps[m2]);
        }
    }
    lemma_optimised_no_jumps(closed, start, opts);
    match optimised(closed, start, opts) {
        Some(rep) => {
            let r = closed.take(start) + rep;
            // Loops closed before `start` opened end before it.
            assert forall|k: int| 0 <= k < start && (#[trigger] closed[k]).opcode is JZ && closed[k].off != 0 implies k + closed[k].off < start by {
                assert(closed[k] == instrs[k]);
                assert(jumps[jumps.len() - 1] == start);
            }
            assert forall|k: int| 0 <= k < r.len() && ((#[trigger] r[k]).opcode is JZ || r[k].opcode is JNZ) implies k < start && r[k] == closed[k] by {
                if k >= start {
                    assert(r[k] == rep[k - start]);
                }
            }
            assert forall|k: int| 0 <= k < r.len() && (#[trigger] r[k]).opcode is JZ && r[k].off != 0 implies jz_linked(r, k) by {
                assert(jz_linked(closed, k));
                assert(r[k + r[k].off] == closed[k + r[k].off]);
            }
            assert forall|k: int| 0 <= k < r.len() && (#[trigger] r[k]).opcode is JNZ implies jnz_linked(r, k) by {
                assert(jnz_linked(closed, k));
                assert(r[k + r[k].off] == closed[k + r[k].off]);
            }
            assert forall|k: int| 0 <= k < r.len() && (#[trigger] r[k]).opcode is JZ && r[k].off == 0 implies exists|m: int| 0 <= m < j.len() && j[m] == k by {
                assert(closed[k].opcode is JZ && closed[k].off == 0);
            }
            assert forall|m: int, k: int| 0 <= m < j.len() && 0 <= k < j[m] && (#[trigger] r[k]).opcode is JZ && r[k].off != 0 implies k + r[k].off < #[trigger] j[m] by {
                assert(closed[k].opcode is JZ);
            }
            assert forall|m: int| 0 <= m < j.len() implies r[#[trigger] j[m] as int] == plain(Op::JZ, 0) by {
                assert(closed[j[m] as int] == plain(Op::JZ, 0));
            }
        },
        None => {},
    }
}

proof fn lemma_feed_ok(b: Build, c: u8, opts: Options)
    requires
        build_ok(b),
        !b.failed,
        emitted_len(b) < i32::MAX,
        !opts.loop_set_jump,
    ensures
        build_ok(feed(b, c, opts)),
        emitted_len(feed(b, c, opts)) <= emitted_len(b) + 1,
{
    if op_of(c) is Some {
        let op = op_of(c)->0;
        let b1 = if b.acc is Some && (b.acc->0 != op || b.count == 255 || !opts.fuse_adjacent) {
            Build { instrs: flush_run(b.instrs, b.acc->0, b.count, opts), acc: None, count: 0, ..b }
        } else {
            b
        };
        if b.acc is Some && (b.acc->0 != op || b.count == 255 || !opts.fuse_adjacent) {
            lemma_flush_ok(b.instrs, b.jumps, b.acc->0, b.count, opts);
        }
        if is_fusible(op) {
        } else if op is JZ {
            lemma_open_ok(b1.instrs, b1.jumps);
        } else if b1.jumps.len() > 0 {
            lemma_close_ok(b1.instrs, b1.jumps, opts);
            let start = b1.jumps.last() as int;
            let here = b1.instrs.len() as int;
            let closed = b1.instrs.update(start, Instr { opcode: Op::JZ, arg: 0, off: (here - start) as i32 }).push(
                Instr { opcode: Op::JNZ, arg: 0, off: (start - here) as i32 },
            );
            lemma_optimised_len(closed, start, opts);
        }
    }
}

proof fn lemma_build_ok(s: Seq<u8>, opts: Options)
    requires
        !opts.loop_set_jump,
        s.len() < i32::MAX,
    ensures
        build_ok(build(s, opts)),
        emitted_len(build(s, opts)) <= s.len(),
    decreases s.len(),
{
    if s.len() > 0 {
        lemma_build_ok(s.drop_last(), opts);
        let b = build(s.drop_last(), opts);
        if !b.failed {
            lemma_feed_ok(b, s.last(), opts);
        }
    }
}

/// With the set-jump rewrite off, every `JZ` of a compiled program at `i`
/// with offset `d` has `d > 0` and a `JNZ` at `i + d` with offset `-d`, and
/// every `JNZ` is the partner of such a `JZ`.
pub proof fn lemma_jumps_paired(s: Seq<u8>, opts: Options)
    requires
        !opts.loop_set_jump,
        s.len() < i32::MAX,
        compiled(s, opts) is Some,
    ensures
        jumps_paired(compiled(s, opts)->0),
{
    lemma_build_ok(s, opts);
    let b = build(s, opts);
    let code = compiled(s, opts)->0;
    assert forall|k: int| 0 <= k < code.len() && (#[trigger] code[k]).opcode is JZ implies jz_linked(code, k) by {
        assert(k < b.instrs.len() && code[k] == b.instrs[k]);
        if b.instrs[k].off == 0 {
            assert(exists|m: int| 0 <= m < b.jumps.len() && b.jumps[m] == k);
        }
        assert(code[k + code[k].off] == b.instrs[k + code[k].off]);
    }
    assert forall|k: int| 0 <= k < code.len() && (#[trigger] code[k]).opcode is JNZ implies jnz_linked(code, k) by {
        assert(k < b.instrs.len() && code[k] == b.instrs[k]);
        assert(code[k + code[k].off] == b.instrs[k + code[k].off]);
    }
}

/// The state after `n` single instructions `op 1`, each run on its own.
pub open spec fn unit_steps(m: MachineState, op: Op, n: nat) -> MachineState
    decreases n,
{
    if n == 0 {
        m
    } else {
        let p = unit_steps(m, op, (n - 1) as nat);
        next(MachineState { ip: 0, ..p }, seq![plain(op, 1)]).0
    }
}

/// A fused `Add`, `Sub`, `Left` or `Right` with count `n` leaves the tape and
/// the data pointer exactly as `n` of the same instruction with count one do.
pub proof fn lemma_fused_run(m: MachineState, op: Op, n: u8)
    requires
        state_ok(m),
        op is Add || op is Sub || op is Left || op is Right,
    ensures
        ({
            let f = next(MachineState { ip: 0, ..m }, seq![plain(op, n)]).0;
            let u = unit_steps(m, op, n as nat);
            f.tape == u.tape && f.dp == u.dp
        }),
    decreases n,
{
    if n > 0 {
        lemma_fused_run(m, op, (n - 1) as u8);
        lemma_unit_steps_ok(m, op, (n - 1) as nat);
        let p = unit_steps(m, op, (n - 1) as nat);
        let c = m.tape[m.dp];
        if op is Add {
            assert(p.tape[m.dp] == ((c + (n - 1)) % 256) as u8);
            assert(((((c + (n - 1)) % 256) as u8 + 1) % 256) == (c + n) % 256) by {
                vstd::arithmetic::div_mod::lemma_add_mod_noop(c + n - 1, 1, 256);
            }
            assert(p.tape.update(m.dp, ((p.tape[m.dp] + 1) % 256) as u8) =~= m.tape.update(m.dp, ((c + n) % 256) as u8));
        } else if op is Sub {
            assert(p.tape[m.dp] == ((c - (n - 1)) % 256) as u8);
            assert(((((c - (n - 1)) % 256) as u8 - 1) % 256) == (c - n) % 256) by {
                vstd::arithmetic::div_mod::lemma_sub_mod_noop(c - n + 1, 1, 256);
            }
            assert(p.tape.update(m.dp, ((p.tape[m.dp] - 1) % 256) as u8) =~= m.tape.update(m.dp, ((c - n) % 256) as u8));
        }
    }
}

proof fn lemma_unit_steps_ok(m: MachineState, op: Op, n: nat)
    requires
        state_ok(m),
        op is Add || op is Sub || op is Left || op is Right,
    ensures
        state_ok(unit_steps(m, op, n)),
        unit_steps(m, op, n).tape.len() == m.tape.len(),
        op is Left || op is Right ==> unit_steps(m, op, n).tape == m.tape,
        op is Add || op is Sub ==> unit_steps(m, op, n).dp == m.dp,
        op is Add || op is Sub ==> forall|k: int| 0 <= k < m.tape.len() && k != m.dp ==> #[trigger] unit_steps(m, op, n).tape[k] == m.tape[k],
        op is Add ==> unit_steps(m, op, n).tape[m.dp] == ((m.tape[m.dp] + n) % 256) as u8,
        op is Sub ==> unit_steps(m, op, n).tape[m.dp] == ((m.tape[m.dp] - n) % 256) as u8,
        op is Left ==> unit_steps(m, op, n).dp == if m.dp >= n { m.dp - n } else { 0 },
        op is Right ==> unit_steps(m, op, n).dp == if m.dp + n < 30000 { m.dp + n } else { 29999 },
    decreases n,
{
    if n > 0 {
        lemma_unit_steps_ok(m, op, (n - 1) as nat);
        let c = m.tape[m.dp];
        if op is Add {
            vstd::arithmetic::div_mod::lemma_add_mod_noop(c + n - 1, 1, 256);
        } else if op is Sub {
            vstd::arithmetic::div_mod::lemma_sub_mod_noop(c - n + 1, 1, 256);
        }
    }
}

/// `SetCell v` followed by `Add n` (or `Sub n`) leaves the tape and the data
/// pointer as the single `SetCell` of `v + n` (or `v - n`) does.
pub proof fn lemma_set_then_add(m: MachineState, v: u8, op: Op, n: u8)
    requires
        state_ok(m),
        op is Add || op is Sub,
    ensures
        ({
            let two = seq![plain(Op::SetCell, v), plain(op, n)];
            let m1 = next(MachineState { ip: 0, ..m }, two).0;
            let m2 = next(m1, two).0;
            let w = if op is Add {
                wadd(v, n)
            } else {
                wsub(v, n)
            };
            let one = next(MachineState { ip: 0, ..m }, seq![plain(Op::SetCell, w)]).0;
            m2.tape == one.tape && m2.dp == one.dp
        }),
{
    let two = seq![plain(Op::SetCell, v), plain(op, n)];
    let m1 = next(MachineState { ip: 0, ..m }, two).0;
    let m2 = next(m1, two).0;
    let w = if op is Add {
        wadd(v, n)
    } else {
        wsub(v, n)
    };
    assert(m2.tape =~= m.tape.update(m.dp, w));
}

} // verus!
