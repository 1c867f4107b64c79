//! The single-pass compiler from source bytes to instructions.
use crate::instr::{add_byte, sub_byte, is_fusible, op_of, opcode, plain, runs_nonzero, wadd, wsub, Instr, Op, Options};
use crate::optimise::{optimise_loop, optimised};
use vstd::prelude::*;
use vstd::string::StringSliceAdditionalSpecFns;

verus! {

/// The nesting depth of brackets after `s`, or `None` once a `]` has closed
/// more loops than were open.
pub open spec fn depth(s: Seq<u8>) -> Option<nat>
    decreases s.len(),
{
    if s.len() == 0 {
        Some(0)
    } else {
        match depth(s.drop_last()) {
            None => None,
            Some(d) => if s.last() == 91 {
                Some(d + 1)
            } else if s.last() == 93 {
                if d == 0 {
                    None
                } else {
                    Some((d - 1) as nat)
                }
            } else {
                Some(d)
            },
        }
    }
}

/// Every `]` of `s` closes an earlier `[`, and every `[` is closed.
pub open spec fn balanced(s: Seq<u8>) -> bool {
    depth(s) == Some(0nat)
}

/// The compiler's state between two source bytes.
pub struct Build {
    /// The instructions emitted so far.
    pub instrs: Seq<Instr>,
    /// Indices of the `JZ`s of the loops still open, innermost last.
    pub jumps: Seq<usize>,
    /// The operation of the run being accumulated, if any.
    pub acc: Option<Op>,
    /// The length of that run.
    pub count: u8,
    /// Whether a `]` closed more loops than were open.
    pub failed: bool,
}

/// Emits a run of `n` copies of `op`, folding it into a directly preceding
/// `SetCell` when that is enabled and `op` is `Add` or `Sub`.
pub open spec fn flush_run(instrs: Seq<Instr>, op: Op, n: u8, opts: Options) -> Seq<Instr> {
    if opts.fuse_set_add && instrs.len() > 0 && instrs.last().opcode is SetCell && (op is Add
        || op is Sub) {
        let p = instrs.last();
        let v = if op is Add {
            wadd(p.arg, n)
        } else {
            wsub(p.arg, n)
        };
        instrs.update(instrs.len() - 1, Instr { arg: v, ..p })
    } else {
        instrs.push(plain(op, n))
    }
}

/// Closes the loop opened at `start`: links opener and closer, then applies
/// the first loop rewrite that fits.
pub open spec fn close_loop(instrs: Seq<Instr>, start: int, opts: Options) -> Seq<Instr> {
    let here = instrs.len();
    let closed = instrs.update(start, Instr { opcode: Op::JZ, arg: 0, off: (here - start) as i32 }).push(
        Instr { opcode: Op::JNZ, arg: 0, off: (start - here) as i32 },
    );
    match optimised(closed, start, opts) {
        Some(r) => closed.take(start) + r,
        None => closed,
    }
}

/// The state after one more source byte.
pub open spec fn feed(b: Build, c: u8, opts: Options) -> Build {
    if b.failed || op_of(c) is None {
        b
    } else {
        let op = op_of(c)->0;
        let b1 = if b.acc is Some && (b.acc->0 != op || b.count == 255 || !opts.fuse_adjacent) {
            Build { instrs: flush_run(b.instrs, b.acc->0, b.count, opts), acc: None, count: 0, ..b }
        } else {
            b
        };
        if is_fusible(op) {
            Build { acc: Some(op), count: (b1.count + 1) as u8, ..b1 }
        } else if op is JZ {
            Build {
                instrs: b1.instrs.push(plain(Op::JZ, 0)),
                jumps: b1.jumps.push(b1.instrs.len() as usize),
                ..b1
            }
        } else if b1.jumps.len() == 0 {
            Build { failed: true, ..b1 }
        } else {
            Build {
                instrs: close_loop(b1.instrs, b1.jumps.last() as int, opts),
                jumps: b1.jumps.drop_last(),
                ..b1
            }
        }
    }
}

/// The state after all of `s`.
pub open spec fn build(s: Seq<u8>, opts: Options) -> Build
    decreases s.len(),
{
    if s.len() == 0 {
        Build { instrs: seq![], jumps: seq![], acc: None, count: 0, failed: false }
    } else {
        feed(build(s.drop_last(), opts), s.last(), opts)
    }
}

/// The program `s` compiles to under `opts`, or `None` on unbalanced brackets.
pub open spec fn compiled(s: Seq<u8>, opts: Options) -> Option<Seq<Instr>> {
    let b = build(s, opts);
    if b.failed || b.jumps.len() > 0 {
        None
    } else if b.acc is Some {
        Some(b.instrs.push(plain(b.acc->0, b.count)))
    } else {
        Some(b.instrs)
    }
}

/// The open loops: increasing indices of unlinked `JZ`s.
pub open spec fn open_jumps_ok(instrs: Seq<Instr>, jumps: Seq<usize>) -> bool {
    &&& forall|k: int| 0 <= k < jumps.len() ==> (#[trigger] jumps[k]) < instrs.len()
    &&& forall|k: int| 0 <= k < jumps.len() ==> instrs[#[trigger] jumps[k] as int] == plain(Op::JZ, 0)
    &&& forall|k1: int, k2: int| 0 <= k1 < k2 < jumps.len() ==> jumps[k1] < jumps[k2]
}

proof fn lemma_failure_sticks(s: Seq<u8>, k: int, opts: Options)
    requires
        0 <= k <= s.len(),
        build(s.take(k), opts).failed,
        depth(s.take(k)) is None,
    ensures
        build(s, opts).failed,
        depth(s) is None,
    decreases s.len() - k,
{
    if k < s.len() {
        assert(s.take(k + 1).drop_last() =~= s.take(k));
        lemma_failure_sticks(s, k + 1, opts);
    } else {
        assert(s.take(k) =~= s);
    }
}

fn push_run(instrs: &mut Vec<Instr>, op: Op, n: u8, opts: Options)
    requires
        runs_nonzero(old(instrs)@),
        n >= 1,
    ensures
        final(instrs)@ == flush_run(old(instrs)@, op, n, opts),
        old(instrs).len() <= final(instrs).len() <= old(instrs).len() + 1,
        forall|k: int|
            0 <= k < old(instrs).len() && (#[trigger] old(instrs)@[k]).opcode is JZ ==> final(instrs)@[k]
                == old(instrs)@[k],
        runs_nonzero(final(instrs)@),
{
    let len = instrs.len();
    if opts.fuse_set_add && len > 0 && instrs[len - 1].opcode == Op::SetCell && (op == Op::Add
        || op == Op::Sub) {
        let p = instrs[len - 1];
        let v = if op == Op::Add {
            add_byte(p.arg, n)
        } else {
            sub_byte(p.arg, n)
        };
        instrs.set(len - 1, Instr { opcode: p.opcode, arg: v, off: p.off });
        assert(forall|k: int| 0 <= k < len - 1 ==> instrs@[k] == old(instrs)@[k]);
    } else {
        instrs.push(Instr { opcode: op, arg: n, off: 0 });
        assert(forall|k: int| 0 <= k < len ==> instrs@[k] == old(instrs)@[k]);
    }
}

fn close(instrs: &mut Vec<Instr>, start: usize, opts: Options)
    requires
        start < old(instrs).len() <= i32::MAX - 1,
        old(instrs)@[start as int] == plain(Op::JZ, 0),
        runs_nonzero(old(instrs)@),
    ensures
        final(instrs)@ == close_loop(old(instrs)@, start as int, opts),
        start <= final(instrs).len() <= old(instrs).len() + 1,
        final(instrs)@.take(start as int) == old(instrs)@.take(start as int),
        runs_nonzero(final(instrs)@),
{
    let ghost pre = instrs@;
    let here = instrs.len();
    let off: i32 = start as i32 - here as i32;
    instrs.set(start, Instr { opcode: Op::JZ, arg: 0, off: -off });
    instrs.push(Instr { opcode: Op::JNZ, arg: 0, off: off });
    let ghost closed = pre.update(start as int, Instr { opcode: Op::JZ, arg: 0, off: (here - start) as i32 }).push(
        Instr { opcode: Op::JNZ, arg: 0, off: (start - here) as i32 });
    assert(instrs@ =~= closed);
    assert(runs_nonzero(closed)) by {
        assert forall|k: int| 0 <= k < closed.len() && is_fusible(#[trigger] closed[k].opcode) implies closed[k].arg >= 1 by {
            if k < pre.len() && k != start {
                assert(closed[k] == pre[k]);
            }
        }
    }
    let rewritten = optimise_loop(&instrs, start, opts);
    let ghost repl = match rewritten {
        Some(ref v) => v@,
        None => seq![],
    };
    if let Some(mut replacement) = rewritten {
        instrs.truncate(start);
        instrs.append(&mut replacement);
        assert(instrs@ =~= closed.take(start as int) + repl);
        assert forall|k: int| 0 <= k < instrs.len() && is_fusible(#[trigger] instrs@[k].opcode) implies instrs@[k].arg >= 1 by {
            if k < start {
                assert(instrs@[k] == closed[k]);
            } else {
                assert(instrs@[k] == repl[k - start]);
            }
        }
    }
    assert(instrs@.take(start as int) =~= pre.take(start as int));
}

/// Compiles source text to instructions, applying the rewrites that `opts`
/// enables. Every byte but `+ - < > . , [ ]` is ignored. Returns `None`
/// exactly when the brackets are unbalanced.
#[verifier::rlimit(40)]
pub fn compile(code: &str, opts: Options) -> (r: Option<Vec<Instr>>)
    requires
        code.spec_bytes().len() <= i32::MAX,
    ensures
        match r {
            Some(v) => compiled(code.spec_bytes(), opts) == Some(v@),
            None => compiled(code.spec_bytes(), opts) is None,
        },
        r is Some <==> balanced(code.spec_bytes()),
        r is Some ==> runs_nonzero(r->0@),
{
    let bytes = code.as_bytes();
    let n = bytes.len();
    let ghost s = bytes@;
    let mut instrs: Vec<Instr> = Vec::new();
    let mut jumps: Vec<usize> = Vec::new();
    let mut acc: Option<Op> = None;
    let mut count: u8 = 0;
    let mut i: usize = 0;
    assert(s.take(0) =~= seq![]);
    while i < n
        invariant
            s == bytes@,
            s == code.spec_bytes(),
            n == s.len(),
            n <= i32::MAX,
            i <= n,
            build(s.take(i as int), opts) == (Build {
                instrs: instrs@,
                jumps: jumps@,
                acc: acc,
                count: count,
                failed: false,
            }),
            depth(s.take(i as int)) == Some(jumps.len() as nat),
            open_jumps_ok(instrs@, jumps@),
            acc is Some <==> count >= 1,
            instrs.len() + (if acc is Some { 1int } else { 0 }) <= i,
            runs_nonzero(instrs@),
        decreases n - i,
    {
        let ghost b0 = build(s.take(i as int), opts);
        assert(s.take(i + 1).drop_last() =~= s.take(i as int));
        let c = bytes[i];
        if let Some(op) = opcode(c) {
            let ghost b1 = if b0.acc is Some && (b0.acc->0 != op || b0.count == 255
                || !opts.fuse_adjacent) {
                Build { instrs: flush_run(b0.instrs, b0.acc->0, b0.count, opts), acc: None, count: 0, ..b0 }
            } else {
                b0
            };
            let ghost pre_flush = instrs@;
            if let Some(a) = acc {
                if a != op || count == 255 || !opts.fuse_adjacent {
                    push_run(&mut instrs, a, count, opts);
                    acc = None;
                    count = 0;
                }
            }
            assert(b1 == (Build { instrs: instrs@, jumps: jumps@, acc: acc, count: count, failed: false }));
            assert(open_jumps_ok(instrs@, jumps@)) by {
                assert forall|k: int| 0 <= k < jumps.len() implies instrs@[#[trigger] jumps@[k] as int] == plain(Op::JZ, 0) by {
                    assert(pre_flush[jumps@[k] as int].opcode is JZ);
                }
            }
            match op {
                Op::Add | Op::Sub | Op::Left | Op::Right | Op::PutCh | Op::GetCh => {
                    acc = Some(op);
                    count = count + 1;
                },
                Op::JZ => {
                    let ghost pre = instrs@;
                    instrs.push(Instr { opcode: Op::JZ, arg: 0, off: 0 });
                    jumps.push(instrs.len() - 1);
                    proof {
                        assert(forall|k: int| 0 <= k < pre.len() ==> instrs@[k] == pre[k]);
                    }
                },
                _ => {
                    let ghost pre_jumps = jumps@;
                    match jumps.pop() {
                        None => {
                            proof {
                                lemma_failure_sticks(s, i + 1, opts);
                            }
                            return None;
                        },
                        Some(start) => {
                            assert(jumps@ =~= pre_jumps.drop_last());
                            assert forall|k: int| 0 <= k < jumps.len() implies (#[trigger] jumps@[k]) < start by {
                                assert(pre_jumps[k] < pre_jumps[pre_jumps.len() - 1]);
                                assert(pre_jumps[k] == jumps@[k]);
                            }
                            let ghost pre_close = instrs@;
                            close(&mut instrs, start, opts);
                            assert forall|k: int| 0 <= k < jumps.len() implies instrs@[#[trigger] jumps@[k] as int] == plain(Op::JZ, 0) by {
                                assert(instrs@.take(start as int)[jumps@[k] as int] == pre_close.take(start as int)[jumps@[k] as int]);
                            }
                        },
                    }
                },
            }
        }
        i = i + 1;
    }
    assert(s.take(n as int) =~= s);
    if let Some(a) = acc {
        instrs.push(Instr { opcode: a, arg: count, off: 0 });
    }
    if jumps.len() == 0 {
        Some(instrs)
    } else {
        None
    }
}

} // verus!
