//! Worked examples: classic L-systems, each as a grammar text together with
//! the hand-built system it describes, and one hand-built turtle program.

use crate::l_system::LSystem;
use crate::num::Num;
use crate::turtle::{Pen, PenState, Turtle, TurtleCommand, TurtleProgram};
use crate::draw::Color;
use vstd::prelude::*;

verus! {

/// A hand-built program: a rosette of petals drawn by nested repeats, with
/// the turtle saved and restored around every stroke.
pub fn turtle_example() -> (r: TurtleProgram)
    ensures
        r.turtle.location == 0,
        r.turtle.orientation == 0,
{
    TurtleProgram {
        turtle: Turtle {
            location: 0,
            orientation: 0,
            pen: Pen {
                color: Color { r: 255, g: 255, b: 255 },
                width: Num::whole(3),
                state: PenState::Down,
            },
        },
        commands: vec![
            TurtleCommand::Repeat(
                8,
                vec![
                    TurtleCommand::Push,
                    TurtleCommand::PenUp,
                    TurtleCommand::Move(Num::whole(200)),
                    TurtleCommand::PenDown,
                    TurtleCommand::Repeat(
                        18,
                        vec![
                            TurtleCommand::Push,
                            TurtleCommand::Move(Num::whole(50)),
                            TurtleCommand::Pop,
                            TurtleCommand::Turn(Num::whole(20)),
                        ],
                    ),
                    TurtleCommand::Pop,
                    TurtleCommand::Turn(Num::whole(45)),
                ],
            ),
        ],
    }
}

pub fn algae() -> (&'static str, &'static str, LSystem) {
    (
        "algae",
        "LSYSTEM (\n    A,\n    (A -> AB, B -> A),\n    (A -> (MOVE 40), B -> (MOVE 40, TURN 25))\n)",
        LSystem::new(
            "A",
            vec![('A', vec!['A', 'B']), ('B', vec!['A'])],
            vec![
                ('A', vec![TurtleCommand::Move(Num::whole(40))]),
                (
                    'B',
                    vec![
                        TurtleCommand::Move(Num::whole(40)),
                        TurtleCommand::Turn(Num::whole(25)),
                    ],
                ),
            ],
        ),
    )
}

pub fn koch() -> (&'static str, &'static str, LSystem) {
    (
        "koch",
        "LSYSTEM (\n    F,\n    (F -> F+F-F-F+F),\n    (F -> (MOVE 10), + -> (TURN 90), - -> (TURN -90))\n)",
        LSystem::new(
            "F",
            vec![('F', vec!['F', '+', 'F', '-', 'F', '-', 'F', '+', 'F'])],
            vec![
                ('F', vec![TurtleCommand::Move(Num::whole(10))]),
                ('+', vec![TurtleCommand::Turn(Num::whole(90))]),
                ('-', vec![TurtleCommand::Turn(Num::neg_whole(90))]),
            ],
        ),
    )
}

pub fn sierpinski() -> (&'static str, &'static str, LSystem) {
    (
        "sierpinski",
        "LSYSTEM (\n    F-G-G,\n    (F -> F-G+F+G-F, G -> GG),\n    (F -> (MOVE 10), G -> (MOVE 10), + -> (TURN 120), - -> (TURN -120))\n)",
        LSystem::new(
            "F-G-G",
            vec![
                ('F', vec!['F', '-', 'G', '+', 'F', '+', 'G', '-', 'F']),
                ('G', vec!['G', 'G']),
            ],
            vec![
                ('F', vec![TurtleCommand::Move(Num::whole(10))]),
                ('G', vec![TurtleCommand::Move(Num::whole(10))]),
                ('+', vec![TurtleCommand::Turn(Num::whole(120))]),
                ('-', vec![TurtleCommand::Turn(Num::neg_whole(120))]),
            ],
        ),
    )
}

pub fn tree() -> (&'static str, &'static str, LSystem) {
    (
        "tree",
        "LSYSTEM (\n    [0]++[0]++[0]++[0],\n    (1 -> 11, 0 -> 1[+0]-0),\n    (0 -> (MOVE 5),\n     1 -> (MOVE 5),\n     [ -> (PUSH),\n     ] -> (POP),\n     + -> (TURN 45),\n     - -> (TURN -45))\n)",
        LSystem::new(
            "[0]++[0]++[0]++[0]",
            vec![
                ('1', vec!['1', '1']),
                ('0', vec!['1', '[', '+', '0', ']', '-', '0']),
            ],
            vec![
                ('0', vec![TurtleCommand::Move(Num::whole(5))]),
                ('1', vec![TurtleCommand::Move(Num::whole(5))]),
                ('[', vec![TurtleCommand::Push]),
                (']', vec![TurtleCommand::Pop]),
                ('+', vec![TurtleCommand::Turn(Num::whole(45))]),
                ('-', vec![TurtleCommand::Turn(Num::neg_whole(45))]),
            ],
        ),
    )
}

pub fn dragon() -> (&'static str, &'static str, LSystem) {
    (
        "dragon",
        "LSYSTEM (\n    F,\n    (F -> F+G, G -> F-G),\n    (F -> (MOVE 10),\n     G -> (MOVE 10),\n     + -> (TURN 90),\n     - -> (TURN -90))\n)",
        LSystem::new(
            "F",
            vec![('F', vec!['F', '+', 'G']), ('G', vec!['F', '-', 'G'])],
            vec![
                ('F', vec![TurtleCommand::Move(Num::whole(10))]),
                ('G', vec![TurtleCommand::Move(Num::whole(10))]),
                ('+', vec![TurtleCommand::Turn(Num::whole(90))]),
                ('-', vec![TurtleCommand::Turn(Num::neg_whole(90))]),
            ],
        ),
    )
}

pub fn plant() -> (&'static str, &'static str, LSystem) {
    (
        "plant",
        "LSYSTEM (\n    ++X,\n    (X -> F+[[X]-X]-F[-FX]+X, F -> FF),\n    (F -> (MOVE 10),\n     + -> (TURN 25),\n     - -> (TURN -25),\n     [ -> (PUSH),\n     ] -> (POP))\n)",
        LSystem::new(
            "++X",
            vec![
                (
                    'X',
                    vec![
                        'F', '+', '[', '[', 'X', ']', '-', 'X', ']', '-', 'F', '[', '-', 'F', 'X',
                        ']', '+', 'X',
                    ],
                ),
                ('F', vec!['F', 'F']),
            ],
            vec![
                ('F', vec![TurtleCommand::Move(Num::whole(10))]),
                ('+', vec![TurtleCommand::Turn(Num::whole(25))]),
                ('-', vec![TurtleCommand::Turn(Num::neg_whole(25))]),
                ('[', vec![TurtleCommand::Push]),
                (']', vec![TurtleCommand::Pop]),
            ],
        ),
    )
}

pub fn levy() -> (&'static str, &'static str, LSystem) {
    (
        "levy",
        "LSYSTEM (\n    F,\n    (F -> +F--F+),\n    (F -> (MOVE 10), + -> (TURN 45), - -> (TURN -45))\n)",
        LSystem::new(
            "F",
            vec![('F', vec!['+', 'F', '-', '-', 'F', '+'])],
            vec![
                ('F', vec![TurtleCommand::Move(Num::whole(10))]),
                ('+', vec![TurtleCommand::Turn(Num::whole(45))]),
                ('-', vec![TurtleCommand::Turn(Num::neg_whole(45))]),
            ],
        ),
    )
}

/// Every worked example: name, grammar text, and the system it describes.
pub fn all_examples() -> (r: Vec<(&'static str, &'static str, LSystem)>)
    ensures
        r@.len() == 7,
{
    let mut r: Vec<(&'static str, &'static str, LSystem)> = Vec::new();
    r.push(algae());
    r.push(koch());
    r.push(sierpinski());
    r.push(tree());
    r.push(dragon());
    r.push(plant());
    r.push(levy());
    r
}

} // verus!
