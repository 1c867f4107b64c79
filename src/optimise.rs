//! Rewrites of a just-closed loop into cheaper instruction sequences.
use crate::instr::{is_fusible, plain, runs_nonzero, Instr, Op, Options};
use vstd::prelude::*;

verus! {

/// `code` ends with a loop that opens at `start`: a `JZ` there and a `JNZ`
/// last, each jumping to the other.
pub open spec fn ends_with_loop(code: Seq<Instr>, start: int) -> bool {
    &&& 0 <= start && start + 2 <= code.len() <= i32::MAX
    &&& code[start].opcode is JZ
    &&& code[start].off == code.len() - 1 - start
    &&& code.last().opcode is JNZ
    &&& code.last().off == start - (code.len() - 1)
}

/// The instructions strictly between a loop's opener and closer.
pub open spec fn body_of(code: Seq<Instr>, start: int) -> Seq<Instr> {
    code.subrange(start + 1, code.len() - 1)
}

/// What one instruction adds to the current cell, if it is an `Add` or `Sub`.
pub open spec fn delta_of(i: Instr) -> int {
    if i.opcode is Add {
        i.arg as int
    } else if i.opcode is Sub {
        -(i.arg as int)
    } else {
        0
    }
}

/// The signed sum of the `Add` and `Sub` arguments of `body`.
pub open spec fn net_delta(body: Seq<Instr>) -> int
    decreases body.len(),
{
    if body.len() == 0 {
        0
    } else {
        net_delta(body.drop_last()) + delta_of(body.last())
    }
}

/// Every instruction of `body` is an `Add` or a `Sub`.
pub open spec fn only_add_sub(body: Seq<Instr>) -> bool {
    forall|k: int| 0 <= k < body.len() ==> (#[trigger] body[k]).opcode is Add || body[k].opcode is Sub
}

/// The set-zero rewrite: a loop of `Add`s and `Sub`s with a nonzero sum
/// becomes `SetCell 0`.
pub open spec fn set_zero_rewrite(code: Seq<Instr>, start: int, opts: Options) -> Option<Seq<Instr>> {
    let body = body_of(code, start);
    if opts.loop_set_zero && only_add_sub(body) && net_delta(body) != 0 {
        Some(seq![plain(Op::SetCell, 0)])
    } else {
        None
    }
}

/// The state of the copy-multiply matcher after a prefix of a loop body.
pub struct MulScan {
    /// Whether the prefix still fits the pattern.
    pub ok: bool,
    /// The running offset from the loop's entry cell.
    pub off: int,
    /// The net change to the entry cell.
    pub first: int,
    /// The multiplies recorded so far.
    pub out: Seq<Instr>,
}

/// Walks `body` as the copy-multiply matcher does: `Right`/`Left` move the
/// running offset (a `Left` past the entry cell, or an offset beyond `i32`,
/// rejects), `Add`/`Sub` at offset zero change the entry cell's delta and
/// elsewhere record a `CMul`/`CNMul`, anything else rejects.
pub open spec fn mul_scan(body: Seq<Instr>) -> MulScan
    decreases body.len(),
{
    if body.len() == 0 {
        MulScan { ok: true, off: 0, first: 0, out: seq![] }
    } else {
        let s = mul_scan(body.drop_last());
        let i = body.last();
        let a = i.arg as int;
        if !s.ok {
            s
        } else if i.opcode is Right {
            if s.off + a <= i32::MAX {
                MulScan { off: s.off + a, ..s }
            } else {
                MulScan { ok: false, ..s }
            }
        } else if i.opcode is Left && s.off >= a {
            MulScan { off: s.off - a, ..s }
        } else if i.opcode is Add && s.off != 0 {
            let op = if a > 0 { Op::CMul } else { Op::CNMul };
            MulScan { out: s.out.push(Instr { opcode: op, arg: i.arg, off: s.off as i32 }), ..s }
        } else if i.opcode is Sub && s.off != 0 {
            MulScan { out: s.out.push(Instr { opcode: Op::CNMul, arg: i.arg, off: s.off as i32 }), ..s }
        } else if i.opcode is Add {
            MulScan { first: s.first + a, ..s }
        } else if i.opcode is Sub {
            MulScan { first: s.first - a, ..s }
        } else {
            MulScan { ok: false, ..s }
        }
    }
}

/// The copy-multiply rewrite: a nonempty body that returns to its entry cell
/// and takes exactly one from it becomes its recorded multiplies and `SetCell 0`.
pub open spec fn copy_multiply_rewrite(code: Seq<Instr>, start: int, opts: Options) -> Option<Seq<Instr>> {
    let s = mul_scan(body_of(code, start));
    if opts.loop_copy_multiply && code.len() > start + 2 && s.ok && s.off == 0 && s.first == -1 {
        Some(s.out.push(plain(Op::SetCell, 0)))
    } else {
        None
    }
}

/// The seek rewrite: `[<]` and `[>]` become `SeekL` and `SeekR`.
pub open spec fn seek_rewrite(code: Seq<Instr>, start: int, opts: Options) -> Option<Seq<Instr>> {
    if opts.loop_seek_lr && code.len() == start + 3 && code[start + 1].arg == 1 {
        if code[start + 1].opcode is Left {
            Some(seq![plain(Op::SeekL, 0)])
        } else if code[start + 1].opcode is Right {
            Some(seq![plain(Op::SeekR, 0)])
        } else {
            None
        }
    } else {
        None
    }
}

/// The set-jump rewrite: after `SetCell 0` a loop is dead and vanishes; a loop
/// whose body ends in `SetCell v` loses its closer, and with `v != 0` gets an
/// unconditional jump back in its place, with `v == 0` an opener that lands on
/// that `SetCell`.
pub open spec fn set_jump_rewrite(code: Seq<Instr>, start: int, opts: Options) -> Option<Seq<Instr>> {
    let before = code[code.len() - 2];
    if !opts.loop_set_jump {
        None
    } else if start > 0 && code[start - 1].opcode is SetCell && code[start - 1].arg == 0 {
        Some(seq![])
    } else if before.opcode is SetCell {
        let kept = code.subrange(start, code.len() - 1);
        if before.arg == 0 {
            Some(kept.update(0, Instr { off: (kept[0].off - 2) as i32, ..kept[0] }))
        } else {
            Some(kept.push(Instr { opcode: Op::J, arg: 0, off: code.last().off }))
        }
    } else {
        None
    }
}

/// The first rewrite that applies, in the order set-zero, copy-multiply,
/// seek, set-jump.
pub open spec fn optimised(code: Seq<Instr>, start: int, opts: Options) -> Option<Seq<Instr>> {
    if set_zero_rewrite(code, start, opts) is Some {
        set_zero_rewrite(code, start, opts)
    } else if copy_multiply_rewrite(code, start, opts) is Some {
        copy_multiply_rewrite(code, start, opts)
    } else if seek_rewrite(code, start, opts) is Some {
        seek_rewrite(code, start, opts)
    } else {
        set_jump_rewrite(code, start, opts)
    }
}

proof fn lemma_mul_scan_stuck(body: Seq<Instr>, k: int)
    requires
        0 <= k <= body.len(),
        !mul_scan(body.take(k)).ok,
    ensures
        !mul_scan(body).ok,
    decreases body.len() - k,
{
    if k < body.len() {
        assert(body.take(k + 1).drop_last() =~= body.take(k));
        lemma_mul_scan_stuck(body, k + 1);
    } else {
        assert(body.take(k) =~= body);
    }
}

pub(crate) proof fn lemma_mul_scan_out(body: Seq<Instr>)
    ensures
        forall|k: int|
            0 <= k < mul_scan(body).out.len() ==> (#[trigger] mul_scan(body).out[k]).opcode is CMul
                || mul_scan(body).out[k].opcode is CNMul,
    decreases body.len(),
{
    if body.len() > 0 {
        lemma_mul_scan_out(body.drop_last());
    }
}

/// Without the set-jump rewrite no replacement holds a conditional jump.
pub proof fn lemma_optimised_no_jumps(code: Seq<Instr>, start: int, opts: Options)
    requires
        !opts.loop_set_jump,
    ensures
        optimised(code, start, opts) matches Some(r) ==> forall|k: int|
            0 <= k < r.len() ==> !((#[trigger] r[k]).opcode is JZ) && !(r[k].opcode is JNZ),
{
    lemma_mul_scan_out(body_of(code, start));
}

proof fn lemma_mul_scan_len(body: Seq<Instr>)
    ensures
        mul_scan(body).out.len() <= body.len(),
    decreases body.len(),
{
    if body.len() > 0 {
        lemma_mul_scan_len(body.drop_last());
    }
}

/// A replacement is never longer than the loop it replaces.
pub proof fn lemma_optimised_len(code: Seq<Instr>, start: int, opts: Options)
    requires
        0 <= start && start + 2 <= code.len(),
    ensures
        optimised(code, start, opts) matches Some(r) ==> r.len() <= code.len() - start,
{
    lemma_mul_scan_len(body_of(code, start));
}

fn set_zero(code: &Vec<Instr>, start: usize, opts: Options) -> (r: Option<Vec<Instr>>)
    requires
        ends_with_loop(code@, start as int),
    ensures
        match r {
            Some(v) => set_zero_rewrite(code@, start as int, opts) == Some(v@),
            None => set_zero_rewrite(code@, start as int, opts) is None,
        },
{
    if !opts.loop_set_zero {
        return None;
    }
    let end = code.len() - 1;
    let mut delta: i64 = 0;
    let mut i: usize = start + 1;
    while i < end
        invariant
            ends_with_loop(code@, start as int),
            end == code.len() - 1,
            start + 1 <= i <= end,
            delta == net_delta(code@.subrange(start + 1, i as int)),
            only_add_sub(code@.subrange(start + 1, i as int)),
            -255 * (i - start) <= delta <= 255 * (i - start),
        decreases end - i,
    {
        let ghost pre = code@.subrange(start + 1, i as int);
        let ghost next = code@.subrange(start + 1, i + 1);
        assert(next.drop_last() =~= pre);
        assert(next.last() == code@[i as int]);
        match code[i].opcode {
            Op::Add => delta = delta + code[i].arg as i64,
            Op::Sub => delta = delta - code[i].arg as i64,
            _ => {
                assert(body_of(code@, start as int)[i - start - 1] == code@[i as int]);
                return None;
            },
        }
        i = i + 1;
    }
    assert(code@.subrange(start + 1, i as int) =~= body_of(code@, start as int));
    if delta != 0 {
        Some(vec![Instr { opcode: Op::SetCell, arg: 0, off: 0 }])
    } else {
        None
    }
}

fn copy_multiply(code: &Vec<Instr>, start: usize, opts: Options) -> (r: Option<Vec<Instr>>)
    requires
        ends_with_loop(code@, start as int),
    ensures
        match r {
            Some(v) => copy_multiply_rewrite(code@, start as int, opts) == Some(v@),
            None => copy_multiply_rewrite(code@, start as int, opts) is None,
        },
        r is Some ==> r->0@.len() <= code@.len() - start - 1,
{
    if !opts.loop_copy_multiply || code.len() <= start + 2 {
        return None;
    }
    let end = code.len() - 1;
    let ghost body = body_of(code@, start as int);
    let mut first: i64 = 0;
    let mut off: i64 = 0;
    let mut out: Vec<Instr> = Vec::new();
    let mut i: usize = start + 1;
    while i < end
        invariant
            ends_with_loop(code@, start as int),
            end == code.len() - 1,
            body == body_of(code@, start as int),
            start + 1 <= i <= end,
            mul_scan(code@.subrange(start + 1, i as int)) == (MulScan {
                ok: true,
                off: off as int,
                first: first as int,
                out: out@,
            }),
            0 <= off <= i32::MAX,
            -255 * (i - start) <= first <= 255 * (i - start),
            out.len() <= i - start - 1,
        decreases end - i,
    {
        let ghost pre = code@.subrange(start + 1, i as int);
        let ghost next = code@.subrange(start + 1, i + 1);
        assert(next.drop_last() =~= pre);
        assert(next.last() == code@[i as int]);
        assert(next =~= body.take(i - start));
        let ins = code[i];
        let a = ins.arg as i64;
        match ins.opcode {
            Op::Right => {
                if off + a > i32::MAX as i64 {
                    proof {
                        lemma_mul_scan_stuck(body, i - start);
                    }
                    return None;
                }
                off = off + a;
            },
            Op::Left if off >= a => {
                off = off - a;
            },
            Op::Add if off != 0 => {
                let op = if ins.arg > 0 { Op::CMul } else { Op::CNMul };
                out.push(Instr { opcode: op, arg: ins.arg, off: off as i32 });
            },
            Op::Sub if off != 0 => {
                out.push(Instr { opcode: Op::CNMul, arg: ins.arg, off: off as i32 });
            },
            Op::Add => {
                first = first + a;
            },
            Op::Sub => {
                first = first - a;
            },
            _ => {
                proof {
                    lemma_mul_scan_stuck(body, i - start);
                }
                return None;
            },
        }
        i = i + 1;
    }
    assert(code@.subrange(start + 1, i as int) =~= body);
    if off != 0 || first != -1 {
        return None;
    }
    out.push(Instr { opcode: Op::SetCell, arg: 0, off: 0 });
    Some(out)
}

fn seek(code: &Vec<Instr>, start: usize, opts: Options) -> (r: Option<Vec<Instr>>)
    requires
        ends_with_loop(code@, start as int),
    ensures
        match r {
            Some(v) => seek_rewrite(code@, start as int, opts) == Some(v@),
            None => seek_rewrite(code@, start as int, opts) is None,
        },
{
    if !opts.loop_seek_lr || code.len() != start + 3 || code[start + 1].arg != 1 {
        return None;
    }
    match code[start + 1].opcode {
        Op::Left => Some(vec![Instr { opcode: Op::SeekL, arg: 0, off: 0 }]),
        Op::Right => Some(vec![Instr { opcode: Op::SeekR, arg: 0, off: 0 }]),
        _ => None,
    }
}

fn set_jump(code: &Vec<Instr>, start: usize, opts: Options) -> (r: Option<Vec<Instr>>)
    requires
        ends_with_loop(code@, start as int),
    ensures
        match r {
            Some(v) => set_jump_rewrite(code@, start as int, opts) == Some(v@),
            None => set_jump_rewrite(code@, start as int, opts) is None,
        },
{
    if !opts.loop_set_jump {
        return None;
    }
    let n = code.len();
    if start > 0 && code[start - 1].opcode == Op::SetCell && code[start - 1].arg == 0 {
        return Some(Vec::new());
    }
    let before = code[n - 2];
    if before.opcode != Op::SetCell {
        return None;
    }
    let mut kept: Vec<Instr> = Vec::new();
    let mut i: usize = start;
    while i < n - 1
        invariant
            ends_with_loop(code@, start as int),
            n == code.len(),
            start <= i <= n - 1,
            kept@ == code@.subrange(start as int, i as int),
        decreases n - 1 - i,
    {
        kept.push(code[i]);
        i = i + 1;
        assert(kept@ =~= code@.subrange(start as int, i as int));
    }
    if before.arg == 0 {
        let opener = kept[0];
        kept.set(0, Instr { opcode: opener.opcode, arg: opener.arg, off: opener.off - 2 });
    } else {
        kept.push(Instr { opcode: Op::J, arg: 0, off: code[n - 1].off });
    }
    Some(kept)
}

/// Tries the enabled loop rewrites on the loop that opens at `start` and
/// closes at the end of `code`, returning the first replacement for
/// `code[start..]` that applies.
pub fn optimise_loop(code: &Vec<Instr>, start: usize, opts: Options) -> (r: Option<Vec<Instr>>)
    requires
        ends_with_loop(code@, start as int),
    ensures
        match r {
            Some(v) => optimised(code@, start as int, opts) == Some(v@),
            None => optimised(code@, start as int, opts) is None,
        },
        r is Some ==> r->0@.len() <= code@.len() - start,
        r is Some && runs_nonzero(code@) ==> runs_nonzero(r->0@),
{
    let zero = set_zero(code, start, opts);
    if zero.is_some() {
        return zero;
    }
    let mul = copy_multiply(code, start, opts);
    if mul.is_some() {
        proof {
            let s = mul_scan(body_of(code@, start as int));
            lemma_mul_scan_out(body_of(code@, start as int));
        }
        return mul;
    }
    let sk = seek(code, start, opts);
    if sk.is_some() {
        return sk;
    }
    let sj = set_jump(code, start, opts);
    proof {
        if sj is Some && runs_nonzero(code@) {
            let v = sj->0@;
            assert forall|k: int| 0 <= k < v.len() && is_fusible(#[trigger] v[k].opcode) implies v[k].arg >= 1 by {
                if k > 0 && k < code@.len() - 1 - start {
                    assert(v[k] == code@[start + k]);
                }
            }
        }
    }
    sj
}

} // verus!
