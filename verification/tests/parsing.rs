use lsystem::num::Num;
use lsystem::parser::{parse, ParseError};
use lsystem::turtle::TurtleCommand;
use lsystem::l_system::LSystem;

#[test]
fn algae() {
    let (_, source, expected) = lsystem::examples::algae();
    let actual = parse(source);
    assert!(actual.is_ok());
    assert_eq!(actual.unwrap(), expected);
}

#[test]
fn koch() {
    let (_, source, expected) = lsystem::examples::koch();
    let actual = parse(source);
    assert!(actual.is_ok());
    assert_eq!(actual.unwrap(), expected);
}

#[test]
fn sierpinski() {
    let (_, source, expected) = lsystem::examples::sierpinski();
    let actual = parse(source);
    assert!(actual.is_ok());
    assert_eq!(actual.unwrap(), expected);
}

#[test]
fn tree() {
    let (_, source, expected) = lsystem::examples::tree();
    let actual = parse(source);
    assert!(actual.is_ok());
    assert_eq!(actual.unwrap(), expected);
}

#[test]
fn dragon() {
    let (_, source, expected) = lsystem::examples::dragon();
    let actual = parse(source);
    assert!(actual.is_ok());
    assert_eq!(actual.unwrap(), expected);
}

#[test]
fn plant() {
    let (_, source, expected) = lsystem::examples::plant();
    let actual = parse(source);
    assert!(actual.is_ok());
    assert_eq!(actual.unwrap(), expected);
}

#[test]
fn levy() {
    let (_, source, expected) = lsystem::examples::levy();
    let actual = parse(source);
    assert!(actual.is_ok());
    assert_eq!(actual.unwrap(), expected);
}

#[test]
fn every_example_round_trips() {
    for (_, source, expected) in lsystem::examples::all_examples() {
        assert_eq!(parse(source).unwrap(), expected);
    }
}

#[test]
fn repeat_nests() {
    let parsed = parse(
        "LSYSTEM (A, (A -> A), (A -> (REPEAT 3 (MOVE 1, REPEAT 2 (TURN 90)))))",
    )
    .unwrap();
    let expected = LSystem::new(
        "A",
        vec![('A', vec!['A'])],
        vec![(
            'A',
            vec![TurtleCommand::Repeat(
                3,
                vec![
                    TurtleCommand::Move(Num::whole(1)),
                    TurtleCommand::Repeat(2, vec![TurtleCommand::Turn(Num::whole(90))]),
                ],
            )],
        )],
    );
    assert_eq!(parsed, expected);
}

#[test]
fn pen_commands_parse() {
    let parsed = parse("LSYSTEM (A, (A -> A), (A -> (PEN UP, PUSH, PEN DOWN, POP)))").unwrap();
    let expected = LSystem::new(
        "A",
        vec![('A', vec!['A'])],
        vec![(
            'A',
            vec![
                TurtleCommand::PenUp,
                TurtleCommand::Push,
                TurtleCommand::PenDown,
                TurtleCommand::Pop,
            ],
        )],
    );
    assert_eq!(parsed, expected);
}

#[test]
fn numbers_keep_their_spelling() {
    let parsed = parse(
        "LSYSTEM (A, (A -> A), (A -> (MOVE -0.5, TURN 2.50, MOVE 007)))",
    )
    .unwrap();
    let expected = LSystem::new(
        "A",
        vec![('A', vec!['A'])],
        vec![(
            'A',
            vec![
                TurtleCommand::Move(Num { neg: true, mantissa: 5, scale: 1 }),
                TurtleCommand::Turn(Num { neg: false, mantissa: 250, scale: 2 }),
                TurtleCommand::Move(Num { neg: false, mantissa: 7, scale: 0 }),
            ],
        )],
    );
    assert_eq!(parsed, expected);
}

#[test]
fn negative_zero_keeps_its_sign() {
    let parsed = parse("LSYSTEM (A, (A -> A), (A -> (TURN -0)))").unwrap();
    let expected = LSystem::new(
        "A",
        vec![('A', vec!['A'])],
        vec![('A', vec![TurtleCommand::Turn(Num { neg: true, mantissa: 0, scale: 0 })])],
    );
    assert_eq!(parsed, expected);
}

#[test]
fn whitespace_between_tokens_is_insignificant() {
    let spread = "  LSYSTEM  (  A B ,\n  ( A ->  A B ) ,\n  ( A -> ( MOVE  7 ) ) )  ";
    let tight = "LSYSTEM(AB,(A->AB),(A->(MOVE 7)))";
    let expected = LSystem::new(
        "AB",
        vec![('A', vec!['A', 'B'])],
        vec![('A', vec![TurtleCommand::Move(Num::whole(7))])],
    );
    assert_eq!(parse(spread).unwrap(), expected);
    assert_eq!(parse(tight).unwrap(), expected);
}

#[test]
fn empty_input_fails_at_start() {
    assert_eq!(parse(""), Err(ParseError { line: 1, col: 1 }));
}

#[test]
fn garbage_fails_at_start() {
    assert_eq!(parse("garbage"), Err(ParseError { line: 1, col: 1 }));
}

#[test]
fn error_carries_line_and_column() {
    // the axiom is missing: the failure is at the '?' on line 2
    assert_eq!(parse("LSYSTEM (\n? A, (A -> A), (A -> (MOVE 1)))"), Err(ParseError {
        line: 2,
        col: 1,
    }));
}

#[test]
fn empty_rule_list_is_rejected() {
    assert!(parse("LSYSTEM (A, (), (A -> (MOVE 1)))").is_err());
}

#[test]
fn missing_replacement_is_rejected() {
    assert!(parse("LSYSTEM (A, (A -> ), (A -> (MOVE 1)))").is_err());
}

#[test]
fn trailing_text_is_rejected() {
    assert!(parse("LSYSTEM (A, (A -> A), (A -> (MOVE 1))) extra").is_err());
}

#[test]
fn mantissa_beyond_u64_is_rejected() {
    assert!(parse("LSYSTEM (A, (A -> A), (A -> (MOVE 99999999999999999999)))").is_err());
}

#[test]
fn mantissa_at_u64_limit_is_accepted() {
    let parsed = parse("LSYSTEM (A, (A -> A), (A -> (MOVE 18446744073709551615)))").unwrap();
    let expected = LSystem::new(
        "A",
        vec![('A', vec!['A'])],
        vec![('A', vec![TurtleCommand::Move(Num {
            neg: false,
            mantissa: u64::MAX,
            scale: 0,
        })])],
    );
    assert_eq!(parsed, expected);
}

#[test]
fn repeat_count_beyond_u32_is_rejected() {
    assert!(parse("LSYSTEM (A, (A -> A), (A -> (REPEAT 4294967296 (MOVE 1))))").is_err());
}

#[test]
fn repeat_count_needs_nonzero_first_digit() {
    assert!(parse("LSYSTEM (A, (A -> A), (A -> (REPEAT 0 (MOVE 1))))").is_err());
}
