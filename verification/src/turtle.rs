//! The turtle state machine.
//!
//! A [`Turtle`] tracks a position, a heading and a pen. Running a command
//! sequence folds over it, mutating the turtle, an explicit save stack and a
//! [`Geometry`] table, and emitting [`DrawCommand`]s. The meaning of a run
//! is pinned down by the specification interpreter ([`step`], [`run_cmds`],
//! [`step_repeat`]); the executable interpreter is proved to implement it
//! exactly.

use crate::draw::{draw_wf, draws_wf, geom_wf, Color, DrawCommand, Drawing, Geometry, PointDef,
    AngleDef};
use crate::num::Num;
use vstd::prelude::*;

verus! {

broadcast use vstd::std_specs::vec::group_vec_axioms, vstd::seq::group_seq_axioms;

/// Whether the pen touches the surface.
#[derive(Clone, Copy, Debug, PartialEq, Eq, Structural)]
pub enum PenState {
    Down,
    Up,
}

/// The drawing pen: colour, stroke width and up/down state.
#[derive(Clone, Copy, Debug, PartialEq, Eq, Structural)]
pub struct Pen {
    pub color: Color,
    pub width: Num,
    pub state: PenState,
}

/// The turtle value: where it stands (a point id), where it faces (a heading
/// id) and its pen. Ids refer to the [`Geometry`] table of the run.
#[derive(Clone, Copy, Debug, PartialEq, Eq, Structural)]
pub struct Turtle {
    pub location: usize,
    pub orientation: usize,
    pub pen: Pen,
}

/// The turtle a program starts with: at the origin, facing the initial
/// heading, pen down, full-intensity colour, stroke width 2.
pub open spec fn initial_turtle() -> Turtle {
    Turtle {
        location: 0,
        orientation: 0,
        pen: Pen {
            color: Color { r: 255, g: 255, b: 255 },
            width: Num { neg: false, mantissa: 2, scale: 0 },
            state: PenState::Down,
        },
    }
}

/// One turtle command. `Repeat` nests arbitrarily and is the only recursive
/// shape. Deep copies are made by [`clone_command`], whose contract says the
/// copy has the same mathematical form.
#[derive(Debug, PartialEq)]
pub enum TurtleCommand {
    /// Advance by the given distance along the current heading.
    Move(Num),
    /// Turn by the given angle in degrees.
    Turn(Num),
    PenDown,
    PenUp,
    /// Run the body the given number of times.
    Repeat(u32, Vec<TurtleCommand>),
    /// Save the turtle on the stack.
    Push,
    /// Restore the most recently saved turtle; on an empty stack, do nothing.
    Pop,
}

/// The mathematical form of a command, used by all contracts: counts are
/// `nat`, bodies are `Seq`.
pub enum Cmd {
    Move(Num),
    Turn(Num),
    PenDown,
    PenUp,
    Repeat(nat, Seq<Cmd>),
    Push,
    Pop,
}

/// The mathematical form of one executable command.
pub open spec fn view_cmd(c: TurtleCommand) -> Cmd
    decreases c,
{
    match c {
        TurtleCommand::Move(d) => Cmd::Move(d),
        TurtleCommand::Turn(a) => Cmd::Turn(a),
        TurtleCommand::PenDown => Cmd::PenDown,
        TurtleCommand::PenUp => Cmd::PenUp,
        TurtleCommand::Repeat(n, body) => Cmd::Repeat(n as nat, view_cmds(body@)),
        TurtleCommand::Push => Cmd::Push,
        TurtleCommand::Pop => Cmd::Pop,
    }
}

/// The mathematical form of an executable command sequence.
pub open spec fn view_cmds(s: Seq<TurtleCommand>) -> Seq<Cmd>
    decreases s,
{
    if s.len() == 0 {
        Seq::empty()
    } else {
        seq![view_cmd(s[0])] + view_cmds(s.drop_first())
    }
}

pub proof fn lemma_view_cmds_index(s: Seq<TurtleCommand>)
    ensures
        view_cmds(s).len() == s.len(),
        forall|i: int| 0 <= i < s.len() ==> view_cmds(s)[i] == view_cmd(#[trigger] s[i]),
    decreases s.len(),
{
    if s.len() > 0 {
        lemma_view_cmds_index(s.drop_first());
        assert forall|i: int| 0 <= i < s.len() implies view_cmds(s)[i] == view_cmd(#[trigger] s[i]) by {
            if i > 0 {
                assert(view_cmds(s)[i] == view_cmds(s.drop_first())[i - 1]);
                assert(s.drop_first()[i - 1] == s[i]);
            }
        }
    }
}

pub proof fn lemma_view_cmds_append(a: Seq<TurtleCommand>, b: Seq<TurtleCommand>)
    ensures
        view_cmds(a + b) == view_cmds(a) + view_cmds(b),
{
    lemma_view_cmds_index(a);
    lemma_view_cmds_index(b);
    lemma_view_cmds_index(a + b);
    assert forall|i: int| 0 <= i < view_cmds(a + b).len() implies view_cmds(a + b)[i] == (
    view_cmds(a) + view_cmds(b))[i] by {
        if i < a.len() {
            assert((a + b)[i] == a[i]);
        } else {
            assert((a + b)[i] == b[i - a.len()]);
        }
    }
    assert(view_cmds(a + b) =~= view_cmds(a) + view_cmds(b));
}

/// Structural size of a command, the termination measure of the
/// interpreters.
pub open spec fn cmd_size(c: Cmd) -> nat
    decreases c,
{
    match c {
        Cmd::Repeat(_, body) => 1 + cmds_size(body),
        _ => 1,
    }
}

/// Structural size of a command sequence.
pub open spec fn cmds_size(s: Seq<Cmd>) -> nat
    decreases s,
{
    if s.len() == 0 {
        0nat
    } else {
        cmd_size(s[0]) + cmds_size(s.drop_first())
    }
}

pub proof fn lemma_cmd_size_le(s: Seq<Cmd>, i: int)
    requires
        0 <= i < s.len(),
    ensures
        cmd_size(s[i]) <= cmds_size(s),
        cmds_size(s) >= s.len(),
    decreases s.len(),
{
    assert(cmd_size(s[0]) >= 1);
    if i > 0 {
        lemma_cmd_size_le(s.drop_first(), i - 1);
        assert(s.drop_first()[i - 1] == s[i]);
    } else if s.len() > 1 {
        lemma_cmd_size_le(s.drop_first(), 0);
    } else {
        assert(cmds_size(s.drop_first()) == 0);
    }
}

/// The full machine state of a run: the turtle, the save stack, the geometry
/// tables. Emissions are returned beside it, not stored in it.
#[verifier::ext_equal]
pub struct RunState {
    pub turtle: Turtle,
    pub stack: Seq<Turtle>,
    pub angles: Seq<AngleDef>,
    pub points: Seq<PointDef>,
}

/// The two style primitives that re-assert a pen's visual state.
pub open spec fn pen_style(pen: Pen) -> Seq<DrawCommand> {
    seq![DrawCommand::SetLineWidth(pen.width), DrawCommand::SetStrokeStyle(pen.color)]
}

/// Effect of one command: the next state and the primitives it emits.
///
/// This is the transition table of the machine: `Move` creates a point node
/// and emits `LineTo` (pen down) or `MoveTo` (pen up); `Turn` creates a
/// heading node; `Push`/`Pop` save and restore the turtle, `Pop` on an empty
/// stack doing nothing; `Pop` re-emits the restored position and pen style;
/// `Repeat` runs its body that many times.
pub open spec fn step(s: RunState, c: Cmd) -> (RunState, Seq<DrawCommand>)
    decreases cmd_size(c), 0nat, 0nat,
{
    match c {
        Cmd::Move(d) => {
            let def = PointDef { base: s.turtle.location, angle: s.turtle.orientation, dist: d };
            let id = (s.points.len() + 1) as usize;
            let emit = if s.turtle.pen.state is Down {
                DrawCommand::LineTo(id)
            } else {
                DrawCommand::MoveTo(id)
            };
            (
                RunState {
                    turtle: Turtle { location: id, ..s.turtle },
                    points: s.points.push(def),
                    ..s
                },
                seq![emit],
            )
        },
        Cmd::Turn(a) => {
            let def = AngleDef { base: s.turtle.orientation, turn: a };
            let id = (s.angles.len() + 1) as usize;
            (
                RunState {
                    turtle: Turtle { orientation: id, ..s.turtle },
                    angles: s.angles.push(def),
                    ..s
                },
                Seq::empty(),
            )
        },
        Cmd::PenDown => (
            RunState {
                turtle: Turtle {
                    pen: Pen { state: PenState::Down, ..s.turtle.pen },
                    ..s.turtle
                },
                ..s
            },
            Seq::empty(),
        ),
        Cmd::PenUp => (
            RunState {
                turtle: Turtle { pen: Pen { state: PenState::Up, ..s.turtle.pen }, ..s.turtle },
                ..s
            },
            Seq::empty(),
        ),
        Cmd::Repeat(n, body) => step_repeat(s, n, body),
        Cmd::Push => (RunState { stack: s.stack.push(s.turtle), ..s }, Seq::empty()),
        Cmd::Pop => {
            if s.stack.len() == 0 {
                (s, Seq::empty())
            } else {
                let t = s.stack.last();
                (
                    RunState { turtle: t, stack: s.stack.drop_last(), ..s },
                    seq![DrawCommand::MoveTo(t.location)] + pen_style(t.pen),
                )
            }
        },
    }
}

/// Effect of a command sequence, front to back.
pub open spec fn run_cmds(s: RunState, cs: Seq<Cmd>) -> (RunState, Seq<DrawCommand>)
    decreases cmds_size(cs), 1nat, cs.len(),
{
    if cs.len() == 0 {
        (s, Seq::empty())
    } else {
        let r1 = step(s, cs[0]);
        let r2 = run_cmds(r1.0, cs.drop_first());
        (r2.0, r1.1 + r2.1)
    }
}

/// Effect of running a body `n` times in sequence.
pub open spec fn step_repeat(s: RunState, n: nat, body: Seq<Cmd>) -> (RunState, Seq<DrawCommand>)
    decreases cmds_size(body), 2nat, n,
{
    if n == 0 {
        (s, Seq::empty())
    } else {
        let r1 = run_cmds(s, body);
        let r2 = step_repeat(r1.0, (n - 1) as nat, body);
        (r2.0, r1.1 + r2.1)
    }
}

/// The turtle's ids are defined by tables of the given sizes.
pub open spec fn turtle_wf(t: Turtle, n_angles: nat, n_points: nat) -> bool {
    t.location <= n_points && t.orientation <= n_angles
}

/// Every id in the state — the turtle's, every saved turtle's, and every
/// reference inside the tables — is defined by the tables.
pub open spec fn state_wf(s: RunState) -> bool {
    &&& turtle_wf(s.turtle, s.angles.len(), s.points.len())
    &&& forall|i: int|
        0 <= i < s.stack.len() ==> turtle_wf(#[trigger] s.stack[i], s.angles.len(), s.points.len())
    &&& geom_wf(s.angles, s.points)
}

/// `s2` extends `s`: every table entry of `s` is still there, unchanged.
pub open spec fn state_extends(s2: RunState, s: RunState) -> bool {
    &&& s.angles.len() <= s2.angles.len()
    &&& forall|i: int| 0 <= i < s.angles.len() ==> #[trigger] s2.angles[i] == s.angles[i]
    &&& s.points.len() <= s2.points.len()
    &&& forall|i: int| 0 <= i < s.points.len() ==> #[trigger] s2.points[i] == s.points[i]
}

/// One command preserves well-formedness, only extends the geometry tables,
/// and emits only primitives whose point ids the new tables define.
pub proof fn lemma_step_wf(s: RunState, c: Cmd)
    requires
        state_wf(s),
    ensures
        state_wf(step(s, c).0),
        state_extends(step(s, c).0, s),
        draws_wf(step(s, c).1, step(s, c).0.points.len()),
    decreases cmd_size(c), 0nat, 0nat,
{
    match c {
        Cmd::Repeat(n, body) => {
            lemma_step_repeat_wf(s, n, body);
        },
        _ => {},
    }
}

/// A command sequence preserves well-formedness, only extends the geometry
/// tables, and emits only primitives whose point ids the new tables define.
pub proof fn lemma_run_cmds_wf(s: RunState, cs: Seq<Cmd>)
    requires
        state_wf(s),
    ensures
        state_wf(run_cmds(s, cs).0),
        state_extends(run_cmds(s, cs).0, s),
        draws_wf(run_cmds(s, cs).1, run_cmds(s, cs).0.points.len()),
    decreases cmds_size(cs), 1nat, cs.len(),
{
    if cs.len() > 0 {
        lemma_step_wf(s, cs[0]);
        lemma_run_cmds_wf(step(s, cs[0]).0, cs.drop_first());
    }
}

/// Running a body repeatedly preserves well-formedness, only extends the
/// geometry tables, and emits only primitives with defined point ids.
pub proof fn lemma_step_repeat_wf(s: RunState, n: nat, body: Seq<Cmd>)
    requires
        state_wf(s),
    ensures
        state_wf(step_repeat(s, n, body).0),
        state_extends(step_repeat(s, n, body).0, s),
        draws_wf(step_repeat(s, n, body).1, step_repeat(s, n, body).0.points.len()),
    decreases cmds_size(body), 2nat, n,
{
    if n > 0 {
        lemma_run_cmds_wf(s, body);
        lemma_step_repeat_wf(run_cmds(s, body).0, (n - 1) as nat, body);
    }
}

/// The machine state formed by a turtle, a save stack and a geometry table.
pub open spec fn st(t: Turtle, stack: Seq<Turtle>, g: Geometry) -> RunState {
    RunState { turtle: t, stack: stack, angles: g.angles@, points: g.points@ }
}

/// The state at the start of a program: the given turtle over an empty stack
/// and an empty geometry table.
pub open spec fn init_state(t: Turtle) -> RunState {
    RunState { turtle: t, stack: Seq::empty(), angles: Seq::empty(), points: Seq::empty() }
}

/// A run result with further primitives emitted in front of it.
pub open spec fn and_out(r: (RunState, Seq<DrawCommand>), prefix: Seq<DrawCommand>) -> (
    RunState,
    Seq<DrawCommand>,
) {
    (r.0, prefix + r.1)
}

impl Pen {
    /// The primitives that re-assert this pen's visual state on the surface.
    pub fn run(&self) -> (r: Vec<DrawCommand>)
        ensures
            r@ == pen_style(*self),
    {
        let mut r: Vec<DrawCommand> = Vec::new();
        r.push(DrawCommand::SetLineWidth(self.width));
        r.push(DrawCommand::SetStrokeStyle(self.color));
        proof {
            assert(r@ =~= pen_style(*self));
        }
        r
    }
}

/// Deep copy of a command; the copy has the same mathematical form.
pub fn clone_command(c: &TurtleCommand) -> (r: TurtleCommand)
    ensures
        view_cmd(r) == view_cmd(*c),
    decreases cmd_size(view_cmd(*c)), 0nat,
{
    match c {
        TurtleCommand::Move(d) => TurtleCommand::Move(*d),
        TurtleCommand::Turn(a) => TurtleCommand::Turn(*a),
        TurtleCommand::PenDown => TurtleCommand::PenDown,
        TurtleCommand::PenUp => TurtleCommand::PenUp,
        TurtleCommand::Repeat(n, body) => TurtleCommand::Repeat(*n, clone_commands(body)),
        TurtleCommand::Push => TurtleCommand::Push,
        TurtleCommand::Pop => TurtleCommand::Pop,
    }
}

/// Deep copy of a command sequence; the copy has the same mathematical form.
pub fn clone_commands(v: &Vec<TurtleCommand>) -> (r: Vec<TurtleCommand>)
    ensures
        view_cmds(r@) == view_cmds(v@),
    decreases cmds_size(view_cmds(v@)), 1nat,
{
    let mut r: Vec<TurtleCommand> = Vec::new();
    for i in 0..v.len()
        invariant
            r@.len() == i,
            forall|j: int| 0 <= j < i ==> view_cmd(#[trigger] r@[j]) == view_cmd(v@[j]),
    {
        proof {
            lemma_view_cmds_index(v@);
            lemma_cmd_size_le(view_cmds(v@), i as int);
        }
        let c = clone_command(&v[i]);
        r.push(c);
    }
    proof {
        lemma_view_cmds_index(v@);
        lemma_view_cmds_index(r@);
        assert forall|j: int| 0 <= j < view_cmds(r@).len() implies view_cmds(r@)[j] == view_cmds(
            v@,
        )[j] by {
            assert(view_cmd(r@[j]) == view_cmd(v@[j]));
        }
        assert(view_cmds(r@) =~= view_cmds(v@));
    }
    r
}

/// Runs one command against the turtle, the save stack and the geometry
/// table, returning the primitives it emits. This is one transition of the
/// machine, exactly [`step`]; the streaming interpretation of a program pulls
/// commands one at a time and feeds each to this function.
pub fn run_command(
    turtle: &mut Turtle,
    command: &TurtleCommand,
    stack: &mut Vec<Turtle>,
    geom: &mut Geometry,
) -> (out: Vec<DrawCommand>)
    ensures
        ({
            let r = step(st(*old(turtle), old(stack)@, *old(geom)), view_cmd(*command));
            st(*final(turtle), final(stack)@, *final(geom)) == r.0 && out@ == r.1
        }),
    decreases cmd_size(view_cmd(*command)), 0nat,
{
    let ghost s0 = st(*turtle, stack@, *geom);
    match command {
        TurtleCommand::Move(d) => {
            let def = PointDef { base: turtle.location, angle: turtle.orientation, dist: *d };
            geom.points.push(def);
            let id: usize = geom.points.len();
            turtle.location = id;
            let mut out: Vec<DrawCommand> = Vec::new();
            if turtle.pen.state == PenState::Down {
                out.push(DrawCommand::LineTo(id));
            } else {
                out.push(DrawCommand::MoveTo(id));
            }
            proof {
                let r = step(s0, view_cmd(*command));
                assert(st(*turtle, stack@, *geom) =~= r.0);
                assert(out@ =~= r.1);
            }
            out
        },
        TurtleCommand::Turn(a) => {
            let def = AngleDef { base: turtle.orientation, turn: *a };
            geom.angles.push(def);
            let id: usize = geom.angles.len();
            turtle.orientation = id;
            proof {
                let r = step(s0, view_cmd(*command));
                assert(st(*turtle, stack@, *geom) =~= r.0);
            }
            Vec::new()
        },
        TurtleCommand::PenDown => {
            turtle.pen.state = PenState::Down;
            proof {
                let r = step(s0, view_cmd(*command));
                assert(st(*turtle, stack@, *geom) =~= r.0);
            }
            Vec::new()
        },
        TurtleCommand::PenUp => {
            turtle.pen.state = PenState::Up;
            proof {
                let r = step(s0, view_cmd(*command));
                assert(st(*turtle, stack@, *geom) =~= r.0);
            }
            Vec::new()
        },
        TurtleCommand::Repeat(n, body) => {
            let cnt: u32 = *n;
            let mut out: Vec<DrawCommand> = Vec::new();
            let ghost bodyv = view_cmds(body@);
            proof {
                let full = step_repeat(s0, cnt as nat, bodyv);
                assert(Seq::<DrawCommand>::empty() + full.1 =~= full.1);
            }
            for i in 0..cnt
                invariant
                    step_repeat(s0, cnt as nat, bodyv) == and_out(
                        step_repeat(st(*turtle, stack@, *geom), (cnt - i) as nat, bodyv),
                        out@,
                    ),
                    bodyv == view_cmds(body@),
                    cmd_size(view_cmd(*command)) == 1 + cmds_size(bodyv),
            {
                let ghost s_cur = st(*turtle, stack@, *geom);
                let ghost out_pre = out@;
                let mut o = turtle.run(body, stack, geom);
                out.append(&mut o);
                proof {
                    let r1 = run_cmds(s_cur, bodyv);
                    let fut = step_repeat(r1.0, (cnt - i - 1) as nat, bodyv);
                    assert(step_repeat(s_cur, (cnt - i) as nat, bodyv) == and_out(fut, r1.1));
                    assert(out_pre + (r1.1 + fut.1) =~= (out_pre + r1.1) + fut.1);
                }
            }
            proof {
                let fin = step_repeat(st(*turtle, stack@, *geom), 0nat, bodyv);
                assert(out@ + fin.1 =~= out@);
                let r = step(s0, view_cmd(*command));
                assert(r == step_repeat(s0, cnt as nat, bodyv));
            }
            out
        },
        TurtleCommand::Push => {
            stack.push(*turtle);
            proof {
                let r = step(s0, view_cmd(*command));
                assert(st(*turtle, stack@, *geom) =~= r.0);
            }
            Vec::new()
        },
        TurtleCommand::Pop => {
            let mut out: Vec<DrawCommand> = Vec::new();
            match stack.pop() {
                Some(t) => {
                    *turtle = t;
                    out.push(DrawCommand::MoveTo(t.location));
                    out.push(DrawCommand::SetLineWidth(t.pen.width));
                    out.push(DrawCommand::SetStrokeStyle(t.pen.color));
                },
                None => {},
            }
            proof {
                let r = step(s0, view_cmd(*command));
                assert(st(*turtle, stack@, *geom) =~= r.0);
                assert(out@ =~= r.1);
            }
            out
        },
    }
}

impl Turtle {
    /// Runs a command sequence, mutating the turtle, the save stack and the
    /// geometry table, and returns the primitives emitted, in order. The
    /// result is exactly [`run_cmds`] of the starting state.
    pub fn run(
        &mut self,
        commands: &Vec<TurtleCommand>,
        stack: &mut Vec<Turtle>,
        geom: &mut Geometry,
    ) -> (out: Vec<DrawCommand>)
        ensures
            ({
                let r = run_cmds(
                    st(*old(self), old(stack)@, *old(geom)),
                    view_cmds(commands@),
                );
                st(*final(self), final(stack)@, *final(geom)) == r.0 && out@ == r.1
            }),
        decreases cmds_size(view_cmds(commands@)), 1nat,
    {
        let mut out: Vec<DrawCommand> = Vec::new();
        let ghost s0 = st(*self, stack@, *geom);
        let ghost cv = view_cmds(commands@);
        proof {
            assert(cv.skip(0) =~= cv);
            assert(Seq::<DrawCommand>::empty() + run_cmds(s0, cv).1 =~= run_cmds(s0, cv).1);
        }
        for i in 0..commands.len()
            invariant
                cv == view_cmds(commands@),
                run_cmds(s0, cv) == and_out(
                    run_cmds(st(*self, stack@, *geom), cv.skip(i as int)),
                    out@,
                ),
        {
            proof {
                lemma_view_cmds_index(commands@);
                lemma_cmd_size_le(cv, i as int);
                assert(cv.skip(i as int)[0] == cv[i as int]);
                assert(cv.skip(i as int).drop_first() =~= cv.skip(i as int + 1));
            }
            let ghost s_cur = st(*self, stack@, *geom);
            let ghost out_pre = out@;
            let mut o = run_command(self, &commands[i], stack, geom);
            out.append(&mut o);
            proof {
                let r1 = step(s_cur, cv[i as int]);
                let fut = run_cmds(r1.0, cv.skip(i as int + 1));
                assert(run_cmds(s_cur, cv.skip(i as int)) == and_out(fut, r1.1));
                assert(out_pre + (r1.1 + fut.1) =~= (out_pre + r1.1) + fut.1);
            }
        }
        proof {
            lemma_view_cmds_index(commands@);
            assert(cv.skip(commands@.len() as int) =~= Seq::empty());
            let fin = run_cmds(st(*self, stack@, *geom), Seq::empty());
            assert(out@ + fin.1 =~= out@);
        }
        out
    }
}

/// A turtle program: a starting turtle and a command sequence.
#[derive(Debug)]
pub struct TurtleProgram {
    pub turtle: Turtle,
    pub commands: Vec<TurtleCommand>,
}

impl TurtleProgram {
    pub fn new(turtle: Turtle, commands: Vec<TurtleCommand>) -> (p: TurtleProgram)
        ensures
            p.turtle == turtle,
            p.commands == commands,
    {
        TurtleProgram { turtle, commands }
    }

    /// Runs the whole program and returns its framed output: `BeginPath`, the
    /// initial pen style and a `MoveTo` of the start position, then the
    /// primitives of the command sequence, then one final `Stroke` — exactly
    /// one path per program execution.
    ///
    /// The starting turtle must stand at the origin with the initial heading,
    /// the one position and heading an empty geometry table defines.
    pub fn execute(self) -> (d: Drawing)
        requires
            self.turtle.location == 0,
            self.turtle.orientation == 0,
        ensures
            ({
                let r = run_cmds(init_state(self.turtle), view_cmds(self.commands@));
                d.commands@ == seq![DrawCommand::BeginPath] + pen_style(self.turtle.pen)
                    + seq![DrawCommand::MoveTo(self.turtle.location)] + r.1
                    + seq![DrawCommand::Stroke] && d.geometry.angles@ == r.0.angles
                    && d.geometry.points@ == r.0.points
            }),
            geom_wf(d.geometry.angles@, d.geometry.points@),
            draws_wf(d.commands@, d.geometry.points@.len()),
    {
        let TurtleProgram { mut turtle, commands } = self;
        let ghost t0 = turtle;
        let mut stack: Vec<Turtle> = Vec::new();
        let mut geom = Geometry::new();
        let mut out: Vec<DrawCommand> = Vec::new();
        out.push(DrawCommand::BeginPath);
        let mut style = turtle.pen.run();
        out.append(&mut style);
        out.push(DrawCommand::MoveTo(turtle.location));
        proof {
            assert(st(turtle, stack@, geom) =~= init_state(t0));
        }
        let mut mid = turtle.run(&commands, &mut stack, &mut geom);
        out.append(&mut mid);
        out.push(DrawCommand::Stroke);
        proof {
            let r = run_cmds(init_state(t0), view_cmds(commands@));
            assert(out@ =~= seq![DrawCommand::BeginPath] + pen_style(t0.pen)
                + seq![DrawCommand::MoveTo(t0.location)] + r.1 + seq![DrawCommand::Stroke]);
            lemma_run_cmds_wf(init_state(t0), view_cmds(commands@));
            assert forall|i: int| 0 <= i < out@.len() implies draw_wf(
                #[trigger] out@[i],
                geom.points@.len(),
            ) by {
                if 4 <= i < out@.len() - 1 {
                    assert(out@[i] == r.1[i - 4]);
                    assert(draw_wf(r.1[i - 4], r.0.points.len()));
                }
            }
        }
        Drawing { commands: out, geometry: geom }
    }
}

} // verus!
