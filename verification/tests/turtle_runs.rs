use lsystem::draw::{AngleDef, Color, DrawCommand, Geometry, PointDef};
use lsystem::num::Num;
use lsystem::turtle::{Pen, PenState, Turtle, TurtleCommand, TurtleProgram};

fn fresh_turtle() -> Turtle {
    Turtle {
        location: 0,
        orientation: 0,
        pen: Pen {
            color: Color { r: 255, g: 255, b: 255 },
            width: Num::whole(2),
            state: PenState::Down,
        },
    }
}

#[test]
fn push_then_pop_restores_turtle_exactly() {
    let mut turtle = fresh_turtle();
    let saved = turtle;
    let mut stack: Vec<Turtle> = Vec::new();
    let mut geom = Geometry::new();
    let out = turtle.run(
        &vec![TurtleCommand::Push, TurtleCommand::Pop],
        &mut stack,
        &mut geom,
    );
    assert_eq!(turtle, saved);
    assert_eq!(stack, Vec::<Turtle>::new());
    assert_eq!(out, vec![
        DrawCommand::MoveTo(0),
        DrawCommand::SetLineWidth(Num::whole(2)),
        DrawCommand::SetStrokeStyle(Color { r: 255, g: 255, b: 255 }),
    ]);
}

#[test]
fn pop_on_empty_stack_is_a_no_op() {
    let mut turtle = fresh_turtle();
    let saved = turtle;
    let mut stack: Vec<Turtle> = Vec::new();
    let mut geom = Geometry::new();
    let out = turtle.run(&vec![TurtleCommand::Pop], &mut stack, &mut geom);
    assert_eq!(turtle, saved);
    assert_eq!(out, Vec::<DrawCommand>::new());
    assert_eq!(geom, Geometry::new());
}

#[test]
fn move_with_pen_down_draws_a_line() {
    let mut turtle = fresh_turtle();
    let mut stack: Vec<Turtle> = Vec::new();
    let mut geom = Geometry::new();
    let out = turtle.run(&vec![TurtleCommand::Move(Num::whole(10))], &mut stack, &mut geom);
    assert_eq!(out, vec![DrawCommand::LineTo(1)]);
    assert_eq!(geom.points, vec![PointDef { base: 0, angle: 0, dist: Num::whole(10) }]);
    assert_eq!(turtle.location, 1);
}

#[test]
fn move_with_pen_up_only_repositions() {
    let mut turtle = fresh_turtle();
    let mut stack: Vec<Turtle> = Vec::new();
    let mut geom = Geometry::new();
    let out = turtle.run(
        &vec![TurtleCommand::PenUp, TurtleCommand::Move(Num::whole(10))],
        &mut stack,
        &mut geom,
    );
    assert_eq!(out, vec![DrawCommand::MoveTo(1)]);
}

#[test]
fn zero_length_move_is_not_an_error() {
    let mut turtle = fresh_turtle();
    let mut stack: Vec<Turtle> = Vec::new();
    let mut geom = Geometry::new();
    let out = turtle.run(&vec![TurtleCommand::Move(Num::whole(0))], &mut stack, &mut geom);
    assert_eq!(out, vec![DrawCommand::LineTo(1)]);
    assert_eq!(geom.points, vec![PointDef { base: 0, angle: 0, dist: Num::whole(0) }]);
}

#[test]
fn turn_chains_heading_nodes() {
    let mut turtle = fresh_turtle();
    let mut stack: Vec<Turtle> = Vec::new();
    let mut geom = Geometry::new();
    let out = turtle.run(
        &vec![TurtleCommand::Repeat(3, vec![TurtleCommand::Turn(Num::whole(90))])],
        &mut stack,
        &mut geom,
    );
    assert_eq!(out, Vec::<DrawCommand>::new());
    assert_eq!(geom.angles, vec![
        AngleDef { base: 0, turn: Num::whole(90) },
        AngleDef { base: 1, turn: Num::whole(90) },
        AngleDef { base: 2, turn: Num::whole(90) },
    ]);
    assert_eq!(turtle.orientation, 3);
}

#[test]
fn repeat_equals_literal_concatenation() {
    let body = |n: u32| TurtleCommand::Repeat(n, vec![
        TurtleCommand::Move(Num::whole(5)),
        TurtleCommand::Turn(Num::whole(45)),
    ]);
    for n in 0..4u32 {
        let mut turtle_repeat = fresh_turtle();
        let mut stack_repeat: Vec<Turtle> = Vec::new();
        let mut geom_repeat = Geometry::new();
        let out_repeat = turtle_repeat.run(&vec![body(n)], &mut stack_repeat, &mut geom_repeat);

        let mut literal: Vec<TurtleCommand> = Vec::new();
        for _ in 0..n {
            literal.push(TurtleCommand::Move(Num::whole(5)));
            literal.push(TurtleCommand::Turn(Num::whole(45)));
        }
        let mut turtle_lit = fresh_turtle();
        let mut stack_lit: Vec<Turtle> = Vec::new();
        let mut geom_lit = Geometry::new();
        let out_lit = turtle_lit.run(&literal, &mut stack_lit, &mut geom_lit);

        assert_eq!(out_repeat, out_lit);
        assert_eq!(turtle_repeat, turtle_lit);
        assert_eq!(geom_repeat, geom_lit);
    }
}

#[test]
fn invisible_program_emits_only_framing() {
    let program = TurtleProgram::new(fresh_turtle(), vec![
        TurtleCommand::Turn(Num::whole(30)),
        TurtleCommand::PenUp,
        TurtleCommand::Turn(Num::neg_whole(15)),
    ]);
    let drawing = program.execute();
    assert_eq!(drawing.commands, vec![
        DrawCommand::BeginPath,
        DrawCommand::SetLineWidth(Num::whole(2)),
        DrawCommand::SetStrokeStyle(Color { r: 255, g: 255, b: 255 }),
        DrawCommand::MoveTo(0),
        DrawCommand::Stroke,
    ]);
    assert_eq!(drawing.geometry.points, Vec::<PointDef>::new());
}

#[test]
fn execute_frames_one_path() {
    let program = TurtleProgram::new(fresh_turtle(), vec![
        TurtleCommand::Move(Num::whole(10)),
        TurtleCommand::Turn(Num::whole(90)),
        TurtleCommand::Move(Num::whole(10)),
    ]);
    let drawing = program.execute();
    assert_eq!(drawing.commands, vec![
        DrawCommand::BeginPath,
        DrawCommand::SetLineWidth(Num::whole(2)),
        DrawCommand::SetStrokeStyle(Color { r: 255, g: 255, b: 255 }),
        DrawCommand::MoveTo(0),
        DrawCommand::LineTo(1),
        DrawCommand::LineTo(2),
        DrawCommand::Stroke,
    ]);
    assert_eq!(drawing.geometry.points, vec![
        PointDef { base: 0, angle: 0, dist: Num::whole(10) },
        PointDef { base: 1, angle: 1, dist: Num::whole(10) },
    ]);
    assert_eq!(drawing.geometry.angles, vec![AngleDef { base: 0, turn: Num::whole(90) }]);
}

#[test]
fn turtle_example_runs() {
    let program = lsystem::examples::turtle_example();
    let drawing = program.execute();
    assert_eq!(drawing.commands[0], DrawCommand::BeginPath);
    assert_eq!(*drawing.commands.last().unwrap(), DrawCommand::Stroke);
    // 8 petals of 18 strokes each: every stroke is one line
    let lines = drawing
        .commands
        .iter()
        .filter(|c| matches!(c, DrawCommand::LineTo(_)))
        .count();
    assert_eq!(lines, 8 * 18);
}

#[test]
fn every_draw_command_points_into_the_geometry() {
    let (_, _, tree) = lsystem::examples::tree();
    let drawing = tree.compile(4).execute();
    for c in drawing.commands.iter() {
        match c {
            DrawCommand::MoveTo(p) | DrawCommand::LineTo(p) => {
                assert!(*p <= drawing.geometry.points.len());
            },
            _ => {},
        }
    }
    for (i, a) in drawing.geometry.angles.iter().enumerate() {
        assert!(a.base <= i);
    }
    for (i, p) in drawing.geometry.points.iter().enumerate() {
        assert!(p.base <= i);
        assert!(p.angle <= drawing.geometry.angles.len());
    }
}
