//! The machine that executes compiled instructions over a fixed tape.
use crate::instr::{add_byte, mul_byte, sub_byte, wadd, wmul, wsub, Instr, Op};
use vstd::prelude::*;

verus! {

/// The number of cells on the tape.
pub const TAPE_LEN: usize = 30000;

/// What a step asks of its caller.
#[derive(Clone, Copy, Debug, PartialEq, Eq, Structural)]
pub enum Action {
    /// The step was taken; nothing to do.
    Continue,
    /// Write the byte the given number of times; the step was taken.
    Write(u8, u8),
    /// Read up to the given number of bytes and hand the last one read to
    /// `finish_read`; the step is not taken until then.
    Read(u8),
    /// The instruction pointer is past the end of the program.
    Halt,
    /// The instruction would leave the tape or jump outside the program.
    Fault,
}

/// The machine as a mathematical value.
pub struct MachineState {
    pub ip: int,
    pub dp: int,
    pub tape: Seq<u8>,
}

/// Instruction pointer, data pointer and a tape of `TAPE_LEN` byte cells.
pub struct Machine {
    ip: usize,
    dp: usize,
    tape: Vec<u8>,
}

impl View for Machine {
    type V = MachineState;

    closed spec fn view(&self) -> MachineState {
        MachineState { ip: self.ip as int, dp: self.dp as int, tape: self.tape@ }
    }
}

/// A machine state whose data pointer lies on a tape of the right length.
pub open spec fn state_ok(m: MachineState) -> bool {
    m.tape.len() == TAPE_LEN && 0 <= m.dp < TAPE_LEN && 0 <= m.ip
}

/// Where a left seek from `dp` stops: the nearest zero cell at or left of
/// `dp`, or `None` when there is none.
pub open spec fn seek_left(tape: Seq<u8>, dp: int) -> Option<int>
    decreases dp + 1,
{
    if dp < 0 || dp >= tape.len() {
        None
    } else if tape[dp] == 0 {
        Some(dp)
    } else {
        seek_left(tape, dp - 1)
    }
}

/// Where a right seek from `dp` stops: the nearest zero cell at or right of
/// `dp`, or `None` when there is none.
pub open spec fn seek_right(tape: Seq<u8>, dp: int) -> Option<int>
    decreases tape.len() - dp,
{
    if dp < 0 || dp >= tape.len() {
        None
    } else if tape[dp] == 0 {
        Some(dp)
    } else {
        seek_right(tape, dp + 1)
    }
}

/// The state with the instruction pointer moved by `off` and then by one,
/// or a fault if that leaves `[0, len]`.
pub open spec fn jump(m: MachineState, off: i32, len: int) -> (MachineState, Action) {
    let t = m.ip + off + 1;
    if 0 <= t <= len {
        (MachineState { ip: t, ..m }, Action::Continue)
    } else {
        (m, Action::Fault)
    }
}

/// One step of the machine on `code`.
pub open spec fn next(m: MachineState, code: Seq<Instr>) -> (MachineState, Action) {
    if m.ip >= code.len() {
        (m, Action::Halt)
    } else {
        let ins = code[m.ip];
        let c = m.tape[m.dp];
        let adv = MachineState { ip: m.ip + 1, ..m };
        match ins.opcode {
            Op::Add => (MachineState { tape: m.tape.update(m.dp, wadd(c, ins.arg)), ..adv }, Action::Continue),
            Op::Sub => (MachineState { tape: m.tape.update(m.dp, wsub(c, ins.arg)), ..adv }, Action::Continue),
            Op::Left => (
                MachineState { dp: if m.dp >= ins.arg { m.dp - ins.arg } else { 0 }, ..adv },
                Action::Continue,
            ),
            Op::Right => (
                MachineState {
                    dp: if m.dp + ins.arg < TAPE_LEN { m.dp + ins.arg } else { TAPE_LEN - 1 },
                    ..adv
                },
                Action::Continue,
            ),
            Op::PutCh => (adv, Action::Write(c, ins.arg)),
            Op::GetCh => (m, Action::Read(ins.arg)),
            Op::J => jump(m, ins.off, code.len() as int),
            Op::JZ => if c == 0 {
                jump(m, ins.off, code.len() as int)
            } else {
                (adv, Action::Continue)
            },
            Op::JNZ => if c != 0 {
                jump(m, ins.off, code.len() as int)
            } else {
                (adv, Action::Continue)
            },
            Op::SetCell => (MachineState { tape: m.tape.update(m.dp, ins.arg), ..adv }, Action::Continue),
            Op::CMul => {
                let t = m.dp + ins.off;
                if 0 <= t < TAPE_LEN {
                    (
                        MachineState { tape: m.tape.update(t, wadd(m.tape[t], wmul(c, ins.arg))), ..adv },
                        Action::Continue,
                    )
                } else {
                    (m, Action::Fault)
                }
            },
            Op::CNMul => {
                let t = m.dp + ins.off;
                if 0 <= t < TAPE_LEN {
                    (
                        MachineState { tape: m.tape.update(t, wsub(m.tape[t], wmul(c, ins.arg))), ..adv },
                        Action::Continue,
                    )
                } else {
                    (m, Action::Fault)
                }
            },
            Op::SeekL => match seek_left(m.tape, m.dp) {
                Some(d) => (MachineState { dp: d, ..adv }, Action::Continue),
                None => (m, Action::Fault),
            },
            Op::SeekR => match seek_right(m.tape, m.dp) {
                Some(d) => (MachineState { dp: d, ..adv }, Action::Continue),
                None => (m, Action::Fault),
            },
        }
    }
}

/// The state after a pending read completes: the cell takes the last byte
/// read, if any was, and the instruction pointer moves on.
pub open spec fn after_read(m: MachineState, last: Option<u8>) -> MachineState {
    MachineState {
        ip: m.ip + 1,
        tape: match last {
            Some(b) => m.tape.update(m.dp, b),
            None => m.tape,
        },
        ..m
    }
}

/// A tape of zeros with the pointers at the start.
pub open spec fn initial_state() -> MachineState {
    MachineState { ip: 0, dp: 0, tape: Seq::new(TAPE_LEN as nat, |k: int| 0u8) }
}

/// Runs at most `fuel` steps from `m` with `input` still unread and `out`
/// already written: the final state, everything written, and `Continue` when
/// the fuel ran out, else the `Halt` or `Fault` that stopped it. A read takes
/// as many bytes as it asks for while there are any, and keeps the last.
pub open spec fn run_from(m: MachineState, code: Seq<Instr>, input: Seq<u8>, out: Seq<u8>, fuel: nat) -> (
    MachineState,
    Seq<u8>,
    Action,
)
    decreases fuel,
{
    if fuel == 0 {
        (m, out, Action::Continue)
    } else {
        let (m1, a) = next(m, code);
        match a {
            Action::Continue => run_from(m1, code, input, out, (fuel - 1) as nat),
            Action::Write(b, n) => run_from(
                m1,
                code,
                input,
                out + Seq::new(n as nat, |k: int| b),
                (fuel - 1) as nat,
            ),
            Action::Read(n) => {
                let k = if n <= input.len() { n as int } else { input.len() as int };
                let last = if k > 0 { Some(input[k - 1]) } else { None };
                run_from(after_read(m, last), code, input.skip(k), out, (fuel - 1) as nat)
            },
            _ => (m, out, a),
        }
    }
}

/// How a bounded run ended, with the machine and everything written.
pub struct Outcome {
    pub machine: Machine,
    pub output: Vec<u8>,
    /// `Halt` or `Fault` when the program stopped, `Continue` when the step
    /// budget ran out first.
    pub status: Action,
}

/// Runs `code` from a zeroed tape for at most `fuel` steps, reading from
/// `input` and collecting what it writes.
pub fn run(code: &Vec<Instr>, input: &Vec<u8>, fuel: u64) -> (r: Outcome)
    ensures
        r.machine.wf(),
        (r.machine@, r.output@, r.status) == run_from(initial_state(), code@, input@, seq![], fuel as nat),
{
    let mut m = Machine::new();
    let mut out: Vec<u8> = Vec::new();
    let mut pos: usize = 0;
    let mut f: u64 = fuel;
    assert(input@.skip(0) =~= input@);
    assert(m@ == initial_state());
    while f > 0
        invariant
            m.wf(),
            pos <= input.len(),
            run_from(m@, code@, input@.skip(pos as int), out@, f as nat) == run_from(
                initial_state(),
                code@,
                input@,
                seq![],
                fuel as nat,
            ),
        decreases f,
    {
        let ghost m0 = m@;
        let a = m.step(code);
        match a {
            Action::Continue => {},
            Action::Write(b, n) => {
                let ghost out0 = out@;
                let mut k: u8 = 0;
                while k < n
                    invariant
                        k <= n,
                        out@ == out0 + Seq::new(k as nat, |j: int| b),
                    decreases n - k,
                {
                    out.push(b);
                    k = k + 1;
                    assert(out@ =~= out0 + Seq::new(k as nat, |j: int| b));
                }
            },
            Action::Read(n) => {
                let avail = input.len() - pos;
                let k: usize = if (n as usize) <= avail { n as usize } else { avail };
                let last = if k > 0 { Some(input[pos + k - 1]) } else { None };
                proof {
                    let rest = input@.skip(pos as int);
                    assert(k > 0 ==> rest[k - 1] == input@[pos + k - 1]);
                    assert(rest.skip(k as int) =~= input@.skip(pos + k));
                }
                m.finish_read(code, last);
                pos = pos + k;
            },
            _ => {
                return Outcome { machine: m, output: out, status: a };
            },
        }
        f = f - 1;
    }
    Outcome { machine: m, output: out, status: Action::Continue }
}

impl Machine {
    /// The well-formedness of a machine: a full tape and the data pointer on it.
    pub open spec fn wf(&self) -> bool {
        state_ok(self@)
    }

    /// A machine at the start of a program, over a tape of zeros.
    pub fn new() -> (r: Machine)
        ensures
            r.wf(),
            r@.ip == 0,
            r@.dp == 0,
            r@.tape == Seq::new(TAPE_LEN as nat, |k: int| 0u8),
    {
        let tape = vec![0u8; TAPE_LEN];
        assert(tape@ =~= Seq::new(TAPE_LEN as nat, |k: int| 0u8));
        Machine { ip: 0, dp: 0, tape }
    }

    /// The instruction pointer.
    pub fn ip(&self) -> (r: usize)
        ensures
            r == self@.ip,
    {
        self.ip
    }

    /// The data pointer.
    pub fn dp(&self) -> (r: usize)
        ensures
            r == self@.dp,
    {
        self.dp
    }

    /// The value of cell `i`.
    pub fn cell(&self, i: usize) -> (r: u8)
        requires
            self.wf(),
            i < TAPE_LEN,
        ensures
            r == self@.tape[i as int],
    {
        self.tape[i]
    }

    /// Sets cell `i` to `v`.
    pub fn set_cell(&mut self, i: usize, v: u8)
        requires
            old(self).wf(),
            i < TAPE_LEN,
        ensures
            final(self)@ == (MachineState { tape: old(self)@.tape.update(i as int, v), ..old(self)@ }),
    {
        self.tape.set(i, v);
    }

    fn jump_by(&mut self, off: i32, len: usize) -> (r: Action)
        requires
            old(self).wf(),
            old(self)@.ip < len,
        ensures
            (final(self)@, r) == jump(old(self)@, off, len as int),
    {
        if off >= 0 {
            let d = off as usize;
            if d < len - self.ip {
                self.ip = self.ip + d + 1;
                Action::Continue
            } else {
                Action::Fault
            }
        } else {
            let d = (-(off as i64)) as usize;
            if d <= self.ip + 1 {
                self.ip = self.ip + 1 - d;
                Action::Continue
            } else {
                Action::Fault
            }
        }
    }

    /// Executes the instruction at the instruction pointer, or says why it
    /// cannot: the program has ended, it faults, or it waits for input.
    pub fn step(&mut self, code: &Vec<Instr>) -> (r: Action)
        requires
            old(self).wf(),
        ensures
            final(self).wf(),
            (final(self)@, r) == next(old(self)@, code@),
    {
        if self.ip >= code.len() {
            return Action::Halt;
        }
        let ins = code[self.ip];
        let dp = self.dp;
        let c = self.tape[dp];
        match ins.opcode {
            Op::Add => {
                self.tape.set(dp, add_byte(c, ins.arg));
                self.ip = self.ip + 1;
                Action::Continue
            },
            Op::Sub => {
                self.tape.set(dp, sub_byte(c, ins.arg));
                self.ip = self.ip + 1;
                Action::Continue
            },
            Op::Left => {
                self.dp = if dp >= ins.arg as usize { dp - ins.arg as usize } else { 0 };
                self.ip = self.ip + 1;
                Action::Continue
            },
            Op::Right => {
                self.dp = if dp + (ins.arg as usize) < TAPE_LEN { dp + ins.arg as usize } else { TAPE_LEN - 1 };
                self.ip = self.ip + 1;
                Action::Continue
            },
            Op::PutCh => {
                self.ip = self.ip + 1;
                Action::Write(c, ins.arg)
            },
            Op::GetCh => Action::Read(ins.arg),
            Op::J => self.jump_by(ins.off, code.len()),
            Op::JZ => {
                if c == 0 {
                    self.jump_by(ins.off, code.len())
                } else {
                    self.ip = self.ip + 1;
                    Action::Continue
                }
            },
            Op::JNZ => {
                if c != 0 {
                    self.jump_by(ins.off, code.len())
                } else {
                    self.ip = self.ip + 1;
                    Action::Continue
                }
            },
            Op::SetCell => {
                self.tape.set(dp, ins.arg);
                self.ip = self.ip + 1;
                Action::Continue
            },
            Op::CMul | Op::CNMul => {
                let t = dp as i64 + ins.off as i64;
                if t < 0 || t >= TAPE_LEN as i64 {
                    return Action::Fault;
                }
                let t = t as usize;
                let prod = mul_byte(c, ins.arg);
                let v = if ins.opcode == Op::CMul {
                    add_byte(self.tape[t], prod)
                } else {
                    sub_byte(self.tape[t], prod)
                };
                self.tape.set(t, v);
                self.ip = self.ip + 1;
                Action::Continue
            },
            Op::SeekL => {
                let mut d = dp;
                while self.tape[d] != 0
                    invariant
                        self.wf(),
                        self@ == old(self)@,
                        d < TAPE_LEN,
                        old(self)@.ip < code@.len(),
                        code@[old(self)@.ip] == ins,
                        dp == old(self)@.dp,
                        ins.opcode is SeekL,
                        seek_left(self@.tape, d as int) == seek_left(self@.tape, dp as int),
                    decreases d,
                {
                    if d == 0 {
                        assert(seek_left(self@.tape, -1) is None);
                        assert(seek_left(self@.tape, 0) == seek_left(self@.tape, -1));
                        return Action::Fault;
                    }
                    d = d - 1;
                }
                self.dp = d;
                self.ip = self.ip + 1;
                Action::Continue
            },
            Op::SeekR => {
                let mut d = dp;
                while self.tape[d] != 0
                    invariant
                        self.wf(),
                        self@ == old(self)@,
                        d < TAPE_LEN,
                        old(self)@.ip < code@.len(),
                        code@[old(self)@.ip] == ins,
                        dp == old(self)@.dp,
                        ins.opcode is SeekR,
                        seek_right(self@.tape, d as int) == seek_right(self@.tape, dp as int),
                    decreases TAPE_LEN - d,
                {
                    if d == TAPE_LEN - 1 {
                        assert(seek_right(self@.tape, TAPE_LEN as int) is None);
                        assert(seek_right(self@.tape, d as int) == seek_right(self@.tape, d + 1));
                        return Action::Fault;
                    }
                    d = d + 1;
                }
                self.dp = d;
                self.ip = self.ip + 1;
                Action::Continue
            },
        }
    }

    /// Completes a pending read: the current cell takes `last`, the last byte
    /// that was read, and stays as it is when no byte could be read.
    pub fn finish_read(&mut self, code: &Vec<Instr>, last: Option<u8>)
        requires
            old(self).wf(),
            old(self)@.ip < code.len(),
            code@[old(self)@.ip].opcode is GetCh,
        ensures
            final(self).wf(),
            final(self)@ == after_read(old(self)@, last),
    {
        if let Some(b) = last {
            let dp = self.dp;
            self.tape.set(dp, b);
        }
        self.ip = self.ip + 1;
    }
}

} // verus!
