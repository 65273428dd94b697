use lsystem::l_system::LSystem;
use lsystem::num::Num;
use lsystem::parser::parse;
use lsystem::turtle::{TurtleCommand, PenState};

#[test]
fn compile_maps_symbols_through_interpretation() {
    let (_, _, algae) = lsystem::examples::algae();
    // generation 2 is "AB": A emits one move, B a move and a turn
    let program = algae.compile(2);
    assert_eq!(program.commands, vec![
        TurtleCommand::Move(Num::whole(40)),
        TurtleCommand::Move(Num::whole(40)),
        TurtleCommand::Turn(Num::whole(25)),
    ]);
    assert_eq!(program.turtle.location, 0);
    assert_eq!(program.turtle.orientation, 0);
    assert_eq!(program.turtle.pen.width, Num::whole(2));
    assert_eq!(program.turtle.pen.state, PenState::Down);
}

#[test]
fn symbols_without_interpretation_emit_nothing() {
    let system = LSystem::new(
        "AXB",
        vec![],
        vec![('A', vec![TurtleCommand::Push]), ('B', vec![TurtleCommand::Pop])],
    );
    let program = system.compile(1);
    assert_eq!(program.commands, vec![TurtleCommand::Push, TurtleCommand::Pop]);
}

#[test]
fn lazy_and_eager_compilation_agree() {
    for (_, _, system) in lsystem::examples::all_examples() {
        for n in 0..5u32 {
            let eager = system.compile(n).commands;
            let lazy = system.compile_stream(n).to_vec();
            assert_eq!(eager, lazy);
        }
    }
}

#[test]
fn command_stream_yields_one_command_per_pull() {
    let (_, _, algae) = lsystem::examples::algae();
    let mut s = algae.compile_stream(2);
    assert_eq!(s.next(), Some(TurtleCommand::Move(Num::whole(40))));
    assert_eq!(s.next(), Some(TurtleCommand::Move(Num::whole(40))));
    assert_eq!(s.next(), Some(TurtleCommand::Turn(Num::whole(25))));
    assert_eq!(s.next(), None);
}

#[test]
fn streaming_and_eager_execution_agree() {
    for (_, _, system) in lsystem::examples::all_examples() {
        for n in 0..5u32 {
            let eager = system.compile(n).execute();
            let program = system.compile(n);
            let lazy = system.compile_stream(n).execute(program.turtle);
            assert_eq!(eager, lazy);
        }
    }
}

#[test]
fn parsed_and_hand_built_systems_compile_alike() {
    let (_, source, built) = lsystem::examples::dragon();
    let parsed = parse(source).unwrap();
    assert_eq!(parsed.compile(6).commands, built.compile(6).commands);
}
