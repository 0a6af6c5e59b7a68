use brainfuck::command::{parse_command, Command};
use brainfuck::machine::Program;

#[test]
fn command_words_parse_long_and_short() {
    assert_eq!(parse_command(b"r"), Command::Run);
    assert_eq!(parse_command(b"run"), Command::Run);
    assert_eq!(parse_command(b"s"), Command::Step(1));
    assert_eq!(parse_command(b"step"), Command::Step(1));
    assert_eq!(parse_command(b"q"), Command::Quit);
    assert_eq!(parse_command(b"quit"), Command::Quit);
    assert_eq!(parse_command(b"p"), Command::Print(0, 1));
    assert_eq!(parse_command(b"print"), Command::Print(0, 1));
    assert_eq!(parse_command(b"o"), Command::ShowOutput);
    assert_eq!(parse_command(b"output"), Command::ShowOutput);
    assert_eq!(parse_command(b"h"), Command::Help);
    assert_eq!(parse_command(b"help"), Command::Help);
    assert_eq!(parse_command(b"c"), Command::ShowCounter);
    assert_eq!(parse_command(b"counter"), Command::ShowCounter);
    assert_eq!(parse_command(b"d"), Command::ShowDp);
    assert_eq!(parse_command(b"dp"), Command::ShowDp);
}

#[test]
fn numeric_arguments_are_read() {
    assert_eq!(parse_command(b"s 3"), Command::Step(3));
    assert_eq!(parse_command(b"step 10"), Command::Step(10));
    assert_eq!(parse_command(b"p 2 5"), Command::Print(2, 5));
    assert_eq!(parse_command(b"print 7"), Command::Print(7, 1));
}

#[test]
fn bad_or_missing_arguments_fall_back_to_defaults() {
    assert_eq!(parse_command(b"s abc"), Command::Step(1));
    assert_eq!(parse_command(b"p x y"), Command::Print(0, 1));
    assert_eq!(parse_command(b"s 99999999999999999999999999"), Command::Step(1));
}

#[test]
fn whitespace_around_tokens_is_ignored() {
    assert_eq!(parse_command(b"  r  "), Command::Run);
    assert_eq!(parse_command(b"\ts\t2\n"), Command::Step(2));
}

#[test]
fn unrecognized_lines_are_an_implicit_single_step() {
    assert_eq!(parse_command(b""), Command::Step(1));
    assert_eq!(parse_command(b"   "), Command::Step(1));
    assert_eq!(parse_command(b"xyz"), Command::Step(1));
    assert_eq!(parse_command(b"steps"), Command::Step(1));
}

#[test]
fn stepping_three_times_then_asking_for_dp() {
    // Interactive session: `s 3` then `d` on source `+++`.
    let mut p = Program::load(b"+++");
    match parse_command(b"s 3") {
        Command::Step(n) => assert_eq!(p.step_many(n), Ok(())),
        other => panic!("expected a step command, got {:?}", other),
    }
    assert_eq!(parse_command(b"d"), Command::ShowDp);
    assert_eq!(p.dp(), 0);
    assert_eq!(p.cells(0, 1).unwrap()[0], 3);
    assert_eq!(p.counter(), 3);
}

#[test]
fn step_many_stops_at_the_first_failure() {
    let mut p = Program::load(b"++");
    assert_eq!(
        p.step_many(5),
        Err(brainfuck::machine::StepError::Exhausted)
    );
    assert_eq!(p.counter(), 2);
}
