use brainfuck::machine::{Program, RunOutcome, StepError, TAPE_LEN};
use brainfuck::opcode::Instructions;

#[test]
fn load_keeps_only_opcodes() {
    let p = Program::load(b"a+ b> c< d- e. f, g[ h] comment\n");
    assert_eq!(
        p.instructions,
        vec![
            Instructions::Increment,
            Instructions::MoveRight,
            Instructions::MoveLeft,
            Instructions::Decrement,
            Instructions::Output,
            Instructions::Input,
            Instructions::JumpIfZero,
            Instructions::JumpIfNonZero,
        ]
    );
}

#[test]
fn load_twice_is_deterministic() {
    let source = b"++>+++++[<+>-]< hello world";
    let a = Program::load(source);
    let b = Program::load(source);
    assert_eq!(a.instructions, b.instructions);
}

#[test]
fn empty_source_gives_empty_program() {
    let p = Program::load(b"");
    assert!(p.instructions.is_empty());
}

#[test]
fn empty_run_reports_exhaustion_with_counter_zero() {
    let mut p = Program::load(b"");
    assert_eq!(p.run(1000), RunOutcome::Finished(0));
    assert_eq!(p.counter(), 0);
}

#[test]
fn straight_line_run_reports_instruction_count() {
    let mut p = Program::load(b"+>+<");
    assert_eq!(p.run(1000), RunOutcome::Finished(4));
    assert_eq!(p.counter(), 4);
}

#[test]
fn increment_wraps_exhaustively() {
    // After k increments from zero the cell holds k mod 256; in
    // particular 255 increments then one more wraps 255 to 0.
    let mut p = Program::load(&vec![b'+'; 256]);
    for k in 1..=256u32 {
        assert_eq!(p.step(), Ok(None));
        let cell = p.cells(0, 1).unwrap()[0];
        assert_eq!(cell as u32, k % 256);
    }
}

#[test]
fn decrement_wraps_exhaustively() {
    // From every byte value v, one decrement yields (v + 255) mod 256;
    // in particular decrementing 0 yields 255.
    for v in 0..=255u32 {
        let mut source = vec![b'+'; v as usize];
        source.push(b'-');
        let mut p = Program::load(&source);
        assert_eq!(p.run(1000), RunOutcome::Finished(v as u64 + 1));
        let cell = p.cells(0, 1).unwrap()[0];
        assert_eq!(cell as u32, (v + 255) % 256);
    }
}

#[test]
fn loop_scenario_leaves_seven_in_cell_zero() {
    let mut p = Program::load(b"++>+++++[<+>-]<");
    match p.run(1_000_000) {
        RunOutcome::Finished(n) => assert!(n > 0),
        other => panic!("expected the run to finish, got {:?}", other),
    }
    assert_eq!(p.cells(0, 1).unwrap()[0], 7);
    assert_eq!(p.dp(), 0);
}

#[test]
fn input_scenario_echoes_byte() {
    let mut p = Program::load(b",.");
    p.push_input(0x41);
    assert_eq!(p.step(), Ok(None));
    assert_eq!(p.step(), Ok(Some(0x41)));
    assert_eq!(p.run(1000), RunOutcome::Finished(2));
    assert_eq!(p.output(), &vec![0x41]);
}

#[test]
fn input_at_end_of_stream_is_a_silent_no_op() {
    let mut p = Program::load(b"+,");
    assert_eq!(p.run(1000), RunOutcome::Finished(2));
    assert_eq!(p.cells(0, 1).unwrap()[0], 1);
}

#[test]
fn wants_input_only_before_an_input_instruction() {
    let mut p = Program::load(b"+,");
    assert!(!p.wants_input());
    assert!(p.input_exhausted());
    assert_eq!(p.step(), Ok(None));
    assert!(p.wants_input());
    p.push_input(9);
    assert!(!p.input_exhausted());
}

#[test]
fn output_accumulates_in_order() {
    let mut p = Program::load(b"+.+.");
    assert_eq!(p.run(1000), RunOutcome::Finished(4));
    assert_eq!(p.output(), &vec![1, 2]);
}

#[test]
fn step_past_the_end_reports_exhaustion() {
    let mut p = Program::load(b"+");
    assert_eq!(p.step(), Ok(None));
    assert_eq!(p.step(), Err(StepError::Exhausted));
    assert_eq!(p.counter(), 1);
}

#[test]
fn moving_left_off_the_tape_is_fatal() {
    let mut p = Program::load(b"<");
    assert_eq!(p.step(), Err(StepError::TapeOutOfBounds));
    assert_eq!(p.counter(), 0);
}

#[test]
fn moving_right_off_the_tape_is_fatal() {
    let mut p = Program::load(&vec![b'>'; TAPE_LEN]);
    match p.run(TAPE_LEN as u64 + 10) {
        RunOutcome::Faulted(e) => assert_eq!(e, StepError::TapeOutOfBounds),
        other => panic!("expected a tape fault, got {:?}", other),
    }
    assert_eq!(p.counter(), TAPE_LEN as u64 - 1);
    assert_eq!(p.dp(), TAPE_LEN - 1);
}

#[test]
fn unmatched_brackets_are_fatal() {
    let mut p = Program::load(b"[");
    assert_eq!(p.step(), Err(StepError::UnmatchedBracket));
    let mut q = Program::load(b"+]");
    assert_eq!(q.run(1000), RunOutcome::Faulted(StepError::UnmatchedBracket));
}

#[test]
fn untaken_jumps_fall_through() {
    // `[` over a nonzero cell and `]` over a zero cell both just advance.
    let mut p = Program::load(b"+[-]");
    assert_eq!(p.run(1000), RunOutcome::Finished(4));
    assert_eq!(p.cells(0, 1).unwrap()[0], 0);
}

#[test]
fn jump_forward_resolves_past_matching_bracket() {
    let p = Program::load(b"[+[-]>]");
    assert_eq!(p.jump_forward(), Some(7));
    let mut q = Program::load(b"[+[-]>]");
    q.pc = 2;
    assert_eq!(q.jump_forward(), Some(5));
}

#[test]
fn jump_backwards_resolves_past_matching_bracket() {
    let mut p = Program::load(b"[+[-]>]");
    p.pc = 6;
    assert_eq!(p.jump_backwards(), Some(1));
    p.pc = 4;
    assert_eq!(p.jump_backwards(), Some(3));
}

#[test]
fn unmatched_scans_report_nothing() {
    let p = Program::load(b"[++");
    assert_eq!(p.jump_forward(), None);
    let mut q = Program::load(b"++]");
    q.pc = 2;
    assert_eq!(q.jump_backwards(), None);
}

#[test]
fn a_spent_budget_pauses_the_run() {
    let mut p = Program::load(b"+[]");
    assert_eq!(p.run(10), RunOutcome::Paused);
    assert_eq!(p.counter(), 10);
    // More budget resumes the same endless loop.
    assert_eq!(p.run(10), RunOutcome::Paused);
    assert_eq!(p.counter(), 20);
}

#[test]
fn cells_rejects_ranges_off_the_tape() {
    let p = Program::load(b"");
    assert_eq!(p.cells(TAPE_LEN - 1, 2), None);
    assert_eq!(p.cells(TAPE_LEN, 1), None);
    assert_eq!(p.cells(0, 0), Some(vec![]));
    assert_eq!(p.cells(TAPE_LEN - 1, 1), Some(vec![0]));
}

#[test]
fn bracket_resolution_round_trips() {
    // Forward-resolving a `[` lands just past its matching `]`, and
    // backward-resolving that `]` lands just past the `[` again.
    let source = b"+[>[->]<]-";
    for pc in [1usize, 3] {
        let mut p = Program::load(source);
        p.pc = pc;
        let t = p.jump_forward().unwrap();
        let mut q = Program::load(source);
        q.pc = t - 1;
        assert_eq!(q.jump_backwards(), Some(pc + 1));
    }
}
