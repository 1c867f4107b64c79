//! The instruction set shared by the compiler and the machine.
use vstd::prelude::*;

verus! {

/// The operation an instruction performs.
#[derive(Clone, Copy, Debug, PartialEq, Eq, Structural)]
pub enum Op {
    /// `cell += arg`, wrapping.
    Add,
    /// `cell -= arg`, wrapping.
    Sub,
    /// Move the data pointer `arg` cells left, stopping at cell 0.
    Left,
    /// Move the data pointer `arg` cells right.
    Right,
    /// Write the current cell `arg` times.
    PutCh,
    /// Read a byte `arg` times, keeping the last one read.
    GetCh,
    /// Unconditional relative jump by `off`.
    J,
    /// Relative jump by `off` when the current cell is zero.
    JZ,
    /// Relative jump by `off` when the current cell is not zero.
    JNZ,
    /// `cell = arg`.
    SetCell,
    /// `tape[dp + off] += cell * arg`, wrapping.
    CMul,
    /// `tape[dp + off] -= cell * arg`, wrapping.
    CNMul,
    /// Move left while the current cell is not zero.
    SeekL,
    /// Move right while the current cell is not zero.
    SeekR,
}

/// One instruction: an operation, a byte argument and a signed offset.
#[derive(Clone, Copy, Debug, PartialEq, Eq, Structural)]
pub struct Instr {
    pub opcode: Op,
    pub arg: u8,
    pub off: i32,
}

/// Which rewrites the compiler may apply.
#[derive(Clone, Copy, Debug, PartialEq, Eq, Structural)]
pub struct Options {
    /// Fuse runs of equal primitive operations into one instruction.
    pub fuse_adjacent: bool,
    /// Fold an `Add` or `Sub` run into a directly preceding `SetCell`.
    pub fuse_set_add: bool,
    /// Turn loops that only add to or subtract from their cell into `SetCell 0`.
    pub loop_set_zero: bool,
    /// Turn copy/multiply loops into `CMul`/`CNMul` instructions.
    pub loop_copy_multiply: bool,
    /// Turn `[<]` and `[>]` into `SeekL` and `SeekR`.
    pub loop_seek_lr: bool,
    /// Use a `SetCell` before a loop or before its closer to settle the jump.
    pub loop_set_jump: bool,
}

/// The instruction `op` with argument `arg` and offset zero.
pub open spec fn plain(op: Op, arg: u8) -> Instr {
    Instr { opcode: op, arg: arg, off: 0 }
}

/// `a + b` on bytes, wrapping modulo 256.
pub open spec fn wadd(a: u8, b: u8) -> u8 {
    ((a + b) % 256) as u8
}

/// `a - b` on bytes, wrapping modulo 256.
pub open spec fn wsub(a: u8, b: u8) -> u8 {
    ((a - b) % 256) as u8
}

/// `a * b` on bytes, wrapping modulo 256.
pub open spec fn wmul(a: u8, b: u8) -> u8 {
    ((a * b) % 256) as u8
}

/// Every fused run in `code` has a count of at least one.
pub open spec fn runs_nonzero(code: Seq<Instr>) -> bool {
    forall|k: int| 0 <= k < code.len() && is_fusible(#[trigger] code[k].opcode) ==> code[k].arg >= 1
}

/// Operations that the compiler fuses into runs.
pub open spec fn is_fusible(op: Op) -> bool {
    op is Add || op is Sub || op is Left || op is Right || op is PutCh || op is GetCh
}

/// The operation a source byte stands for, if it is one of the eight symbols.
pub open spec fn op_of(c: u8) -> Option<Op> {
    if c == 43 {
        Some(Op::Add)
    } else if c == 45 {
        Some(Op::Sub)
    } else if c == 60 {
        Some(Op::Left)
    } else if c == 62 {
        Some(Op::Right)
    } else if c == 46 {
        Some(Op::PutCh)
    } else if c == 44 {
        Some(Op::GetCh)
    } else if c == 91 {
        Some(Op::JZ)
    } else if c == 93 {
        Some(Op::JNZ)
    } else {
        None
    }
}

/// `a + b`, wrapping.
pub(crate) fn add_byte(a: u8, b: u8) -> (r: u8)
    ensures
        r == wadd(a, b),
{
    ((a as u16 + b as u16) % 256) as u8
}

/// `a - b`, wrapping.
pub(crate) fn sub_byte(a: u8, b: u8) -> (r: u8)
    ensures
        r == wsub(a, b),
{
    ((a as u16 + 256 - b as u16) % 256) as u8
}

/// `a * b`, wrapping.
pub(crate) fn mul_byte(a: u8, b: u8) -> (r: u8)
    ensures
        r == wmul(a, b),
{
    assert(a * b <= 255 * 255) by (nonlinear_arith)
        requires
            a <= 255,
            b <= 255,
    ;
    ((a as u16 * b as u16) % 256) as u8
}

impl Options {
    /// Every rewrite switched on but `loop_seek_lr`.
    pub fn default_set() -> (r: Options)
        ensures
            r.fuse_adjacent && r.fuse_set_add && r.loop_set_zero && r.loop_copy_multiply,
            !r.loop_seek_lr && r.loop_set_jump,
    {
        Options {
            fuse_adjacent: true,
            fuse_set_add: true,
            loop_set_zero: true,
            loop_copy_multiply: true,
            loop_seek_lr: false,
            loop_set_jump: true,
        }
    }

    /// Every rewrite switched off.
    pub fn none() -> (r: Options)
        ensures
            !r.fuse_adjacent && !r.fuse_set_add && !r.loop_set_zero,
            !r.loop_copy_multiply && !r.loop_seek_lr && !r.loop_set_jump,
    {
        Options {
            fuse_adjacent: false,
            fuse_set_add: false,
            loop_set_zero: false,
            loop_copy_multiply: false,
            loop_seek_lr: false,
            loop_set_jump: false,
        }
    }
}

/// The operation a source byte stands for: `+ - < > . , [ ]` map to
/// `Add Sub Left Right PutCh GetCh JZ JNZ`, every other byte to `None`.
pub fn opcode(c: u8) -> (r: Option<Op>)
    ensures
        r == op_of(c),
{
    match c {
        43 => Some(Op::Add),
        45 => Some(Op::Sub),
        60 => Some(Op::Left),
        62 => Some(Op::Right),
        46 => Some(Op::PutCh),
        44 => Some(Op::GetCh),
        91 => Some(Op::JZ),
        93 => Some(Op::JNZ),
        _ => None,
    }
}

} // verus!
