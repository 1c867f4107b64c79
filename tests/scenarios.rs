use bfo::compiler::compile;
use bfo::instr::{opcode, Instr, Op, Options};
use bfo::machine::{run, Action, Machine, Outcome};

fn ins(opcode: Op, arg: u8, off: i32) -> Instr {
    Instr { opcode, arg, off }
}

fn compile_default(src: &str) -> Vec<Instr> {
    compile(src, Options::default_set()).expect("balanced source")
}

fn run_all(code: &Vec<Instr>, input: &[u8]) -> Outcome {
    run(code, &input.to_vec(), 1_000_000)
}

fn run_until_stop(m: &mut Machine, code: &Vec<Instr>) -> Action {
    for _ in 0..1_000_000 {
        match m.step(code) {
            Action::Continue | Action::Write(_, _) => {}
            other => return other,
        }
    }
    Action::Continue
}

#[test]
fn put_three() {
    for opts in [Options::default_set(), Options::none()] {
        let code = compile("+++.", opts).unwrap();
        let out = run_all(&code, b"");
        assert_eq!(out.status, Action::Halt);
        assert_eq!(out.output, vec![3u8]);
    }
}

#[test]
fn multiply_into_next_cell() {
    let code = compile_default("++[->++<]");
    assert_eq!(code, vec![ins(Op::Add, 2, 0), ins(Op::CMul, 2, 1), ins(Op::SetCell, 0, 0)]);
    for opts in [Options::default_set(), Options::none()] {
        let code = compile("++[->++<]", opts).unwrap();
        let out = run_all(&code, b"");
        assert_eq!(out.status, Action::Halt);
        assert_eq!(out.machine.cell(0), 0);
        assert_eq!(out.machine.cell(1), 4);
    }
}

#[test]
fn clear_loop() {
    let code = compile_default("[-]");
    assert_eq!(code, vec![ins(Op::SetCell, 0, 0)]);
    let out = run_all(&code, b"");
    assert_eq!(out.status, Action::Halt);
    assert_eq!(out.machine.cell(0), 0);
    assert_eq!(out.machine.dp(), 0);

    let mut m = Machine::new();
    m.set_cell(0, 42);
    assert_eq!(run_until_stop(&mut m, &code), Action::Halt);
    assert_eq!(m.cell(0), 0);
}

#[test]
fn echo_and_fused_reads() {
    let code = compile_default(",.");
    assert_eq!(run_all(&code, b"A").output, b"A".to_vec());

    let code = compile_default(",,,");
    assert_eq!(code, vec![ins(Op::GetCh, 3, 0)]);
    let out = run_all(&code, b"ABC");
    assert_eq!(out.machine.cell(0), b'C');

    let out = run_all(&compile(",,,", Options::none()).unwrap(), b"ABC");
    assert_eq!(out.machine.cell(0), b'C');
}

#[test]
fn read_at_end_of_input_keeps_cell() {
    let code = compile_default("+++,");
    let out = run_all(&code, b"");
    assert_eq!(out.status, Action::Halt);
    assert_eq!(out.machine.cell(0), 3);
}

#[test]
fn empty_loop_runs_forever() {
    let code = compile_default("+[]");
    assert_eq!(code, vec![ins(Op::Add, 1, 0), ins(Op::JZ, 0, 1), ins(Op::JNZ, 0, -1)]);
    let out = run(&code, &vec![], 10_000);
    assert_eq!(out.status, Action::Continue);
}

#[test]
fn classical_move() {
    let src = "+>+>+<<[->>+<<]";
    let code = compile_default(src);
    assert_eq!(
        code[code.len() - 2..].to_vec(),
        vec![ins(Op::CMul, 1, 2), ins(Op::SetCell, 0, 0)]
    );
    for opts in [Options::default_set(), Options::none()] {
        let out = run_all(&compile(src, opts).unwrap(), b"");
        assert_eq!(out.status, Action::Halt);
        assert_eq!(out.machine.cell(0), 0);
        assert_eq!(out.machine.cell(1), 1);
        assert_eq!(out.machine.cell(2), 2);
    }
}

#[test]
fn unbalanced_brackets_fail() {
    for src in ["]", "[", "[[]", "[]]", "+]["] {
        assert!(compile(src, Options::default_set()).is_none());
        assert!(compile(src, Options::none()).is_none());
    }
    assert!(compile("[[]][]", Options::default_set()).is_some());
    assert!(compile("", Options::default_set()).is_some());
}

#[test]
fn comments_are_ignored() {
    assert_eq!(compile_default("a+ b\n+é"), vec![ins(Op::Add, 2, 0)]);
    assert_eq!(opcode(b'x'), None);
    assert_eq!(opcode(b'['), Some(Op::JZ));
    assert_eq!(opcode(b','), Some(Op::GetCh));
}

#[test]
fn long_runs_split_at_255() {
    let src = "+".repeat(300);
    assert_eq!(compile_default(&src), vec![ins(Op::Add, 255, 0), ins(Op::Add, 45, 0)]);
    let unfused = compile(&src, Options::none()).unwrap();
    assert_eq!(unfused.len(), 300);
    assert!(unfused.iter().all(|i| *i == ins(Op::Add, 1, 0)));
    let out = run_all(&compile_default(&src), b"");
    assert_eq!(out.machine.cell(0), 44);
}

#[test]
fn run_args_are_nonzero() {
    let code = compile_default("+++>>>---<<.,,[>+<-]");
    for i in &code {
        if matches!(i.opcode, Op::Add | Op::Sub | Op::Left | Op::Right | Op::PutCh | Op::GetCh) {
            assert!(i.arg >= 1);
        }
    }
}

#[test]
fn jumps_pair_up() {
    let mut opts = Options::default_set();
    opts.loop_set_jump = false;
    let code = compile("+[>+[>++<-]<.[>]-]", opts).unwrap();
    let mut seen = 0;
    for (i, x) in code.iter().enumerate() {
        if x.opcode == Op::JZ {
            let j = (i as i32 + x.off) as usize;
            assert_eq!(code[j].opcode, Op::JNZ);
            assert_eq!(code[j].off, -x.off);
            seen += 1;
        }
    }
    assert!(seen >= 2);
}

#[test]
fn set_then_add_folds() {
    assert_eq!(compile_default("[-]+++>"), vec![ins(Op::SetCell, 3, 0), ins(Op::Right, 1, 0)]);
    assert_eq!(compile_default("[-]--."), vec![ins(Op::SetCell, 254, 0), ins(Op::PutCh, 1, 0)]);
    // A run still pending at the end of the source is never folded.
    assert_eq!(compile_default("[-]+++"), vec![ins(Op::SetCell, 0, 0), ins(Op::Add, 3, 0)]);
    let mut opts = Options::default_set();
    opts.fuse_set_add = false;
    assert_eq!(
        compile("[-]+++>", opts).unwrap(),
        vec![ins(Op::SetCell, 0, 0), ins(Op::Add, 3, 0), ins(Op::Right, 1, 0)]
    );
}

#[test]
fn seek_loops() {
    let mut opts = Options::default_set();
    opts.loop_seek_lr = true;
    assert_eq!(compile(">[<]", opts).unwrap(), vec![ins(Op::Right, 1, 0), ins(Op::SeekL, 0, 0)]);
    assert_eq!(compile("[>]", opts).unwrap(), vec![ins(Op::SeekR, 0, 0)]);
    let code = compile("+>+>+>[<]", opts).unwrap();
    let out = run_all(&code, b"");
    assert_eq!(out.status, Action::Halt);
    assert_eq!(out.machine.dp(), 3);
    let code = compile("+>+>+<<<+[<]", opts).unwrap();
    assert_eq!(run_all(&code, b"").status, Action::Fault);
}

#[test]
fn dead_loop_after_clear() {
    assert_eq!(compile_default("[-][+.]"), vec![ins(Op::SetCell, 0, 0)]);
}

#[test]
fn set_jump_rewrites() {
    let code = compile_default("+[>+<[-]]");
    assert_eq!(
        code,
        vec![
            ins(Op::Add, 1, 0),
            ins(Op::JZ, 0, 3),
            ins(Op::Right, 1, 0),
            ins(Op::Add, 1, 0),
            ins(Op::Left, 1, 0),
            ins(Op::SetCell, 0, 0),
        ]
    );
    let out = run_all(&code, b"");
    assert_eq!(out.status, Action::Halt);
    assert_eq!(out.machine.cell(0), 0);
    assert_eq!(out.machine.cell(1), 1);

    let code = compile_default("+[>[-]+]");
    assert_eq!(
        code,
        vec![
            ins(Op::Add, 1, 0),
            ins(Op::JZ, 0, 3),
            ins(Op::Right, 1, 0),
            ins(Op::SetCell, 1, 0),
            ins(Op::J, 0, -3),
        ]
    );
    assert_eq!(run(&code, &vec![], 10_000).status, Action::Continue);
}

#[test]
fn wrapping_and_saturation() {
    let out = run_all(&compile_default("-"), b"");
    assert_eq!(out.machine.cell(0), 255);
    let out = run_all(&compile_default("<<+"), b"");
    assert_eq!(out.machine.dp(), 0);
    assert_eq!(out.machine.cell(0), 1);
    let out = run_all(&vec![ins(Op::Right, 255, 0); 200], b"");
    assert_eq!(out.machine.dp(), 29999);
}

#[test]
fn multiply_wraps() {
    let code = vec![ins(Op::SetCell, 20, 0), ins(Op::CMul, 13, 1), ins(Op::CNMul, 3, 2)];
    let out = run_all(&code, b"");
    assert_eq!(out.machine.cell(1), ((20u32 * 13) % 256) as u8);
    assert_eq!(out.machine.cell(2), (256 - 60) as u8);
}

#[test]
fn out_of_range_faults() {
    let out = run_all(&vec![ins(Op::Add, 1, 0), ins(Op::CMul, 1, -1)], b"");
    assert_eq!(out.status, Action::Fault);
    assert_eq!(out.machine.ip(), 1);
    let out = run_all(&vec![ins(Op::J, 0, -5)], b"");
    assert_eq!(out.status, Action::Fault);
}

#[test]
fn options_agree_on_output() {
    let src = "++++++++[>++++[>++>+++>+++>+<<<<-]>+>+>->>+[<]<-]>>.>---.+++++++..+++.>>.<-.<.+++.------.--------.>>+.";
    let expected = run_all(&compile(src, Options::none()).unwrap(), b"").output;
    assert_eq!(expected, b"Hello World!".to_vec());
    let mut opts = Options::default_set();
    opts.loop_seek_lr = true;
    for o in [Options::default_set(), opts] {
        let out = run_all(&compile(src, o).unwrap(), b"");
        assert_eq!(out.status, Action::Halt);
        assert_eq!(out.output, expected);
    }
}

#[test]
fn loop_free_programs_agree() {
    let src = ",,>,<<<++.>>>---...,.";
    let input = b"xyzw";
    let base = run_all(&compile(src, Options::none()).unwrap(), input);
    assert_eq!(base.status, Action::Halt);
    let mut fused_only = Options::none();
    fused_only.fuse_adjacent = true;
    for o in [Options::default_set(), fused_only] {
        let out = run_all(&compile(src, o).unwrap(), input);
        assert_eq!(out.status, Action::Halt);
        assert_eq!(out.output, base.output);
        assert_eq!(out.machine.dp(), base.machine.dp());
        for i in 0..4 {
            assert_eq!(out.machine.cell(i), base.machine.cell(i));
        }
    }
    assert_eq!(base.output, vec![b'y' + 2, 253, 253, 253, b'w']);
}
