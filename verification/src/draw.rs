//! Abstract vector-drawing primitives.
//!
//! The interpreter emits an ordered list of [`DrawCommand`]s. A coordinate in
//! this list is not a pair of machine floats: the position a turtle reaches
//! after a `Move` is `base + distance * (cos h, sin h)` for its current
//! heading `h`, a transcendental quantity. The core therefore keeps every
//! position and heading symbolically, as a node in a [`Geometry`] table, and
//! a draw command names the node it refers to. The external renderer — the
//! one component that speaks floating point — evaluates the table in one
//! pass and replays the commands against its surface.

use crate::num::Num;
use vstd::prelude::*;

verus! {

/// An RGB colour with 8-bit channels, the plain form of a pen colour.
#[derive(Clone, Copy, Debug, PartialEq, Eq, Structural)]
pub struct Color {
    pub r: u8,
    pub g: u8,
    pub b: u8,
}

/// A heading node: the heading `angle(base) + turn` in degrees. Heading `0`
/// is the initial heading (0 degrees); heading `i + 1` is described by entry
/// `i` of [`Geometry::angles`].
#[derive(Clone, Copy, Debug, PartialEq, Eq, Structural)]
pub struct AngleDef {
    /// Heading this one turns from.
    pub base: usize,
    /// Signed turn in degrees.
    pub turn: Num,
}

/// A position node: the point reached from `point(base)` by moving `dist`
/// along heading `angle`. Point `0` is the origin; point `i + 1` is described
/// by entry `i` of [`Geometry::points`].
#[derive(Clone, Copy, Debug, PartialEq, Eq, Structural)]
pub struct PointDef {
    /// Point the step starts from.
    pub base: usize,
    /// Heading of the step, as a heading id.
    pub angle: usize,
    /// Signed step length.
    pub dist: Num,
}

/// The symbolic positions and headings a program run has created, in
/// creation order. Each entry only refers to nodes that already existed, so
/// a renderer can evaluate the table front to back in a single pass.
#[derive(Clone, Debug, PartialEq)]
pub struct Geometry {
    pub angles: Vec<AngleDef>,
    pub points: Vec<PointDef>,
}

impl Geometry {
    /// An empty table: only the origin and the initial heading exist.
    pub fn new() -> (g: Geometry)
        ensures
            g.angles@ == Seq::<AngleDef>::empty(),
            g.points@ == Seq::<PointDef>::empty(),
    {
        Geometry { angles: Vec::new(), points: Vec::new() }
    }
}

/// One abstract drawing primitive. `MoveTo` and `LineTo` name a point id of
/// the accompanying [`Geometry`].
#[derive(Clone, Copy, Debug, PartialEq, Eq, Structural)]
pub enum DrawCommand {
    BeginPath,
    SetLineWidth(Num),
    SetStrokeStyle(Color),
    MoveTo(usize),
    LineTo(usize),
    Stroke,
}

/// A complete program output: the primitives in emission order plus the
/// geometry table their point ids refer to.
#[derive(Clone, Debug, PartialEq)]
pub struct Drawing {
    pub commands: Vec<DrawCommand>,
    pub geometry: Geometry,
}

/// Every node of the tables refers only to earlier nodes, so front-to-back
/// evaluation is well defined.
pub open spec fn geom_wf(angles: Seq<AngleDef>, points: Seq<PointDef>) -> bool {
    &&& forall|i: int| 0 <= i < angles.len() ==> (#[trigger] angles[i]).base <= i
    &&& forall|i: int|
        0 <= i < points.len() ==> (#[trigger] points[i]).base <= i && points[i].angle
            <= angles.len()
}

/// A draw command only names point ids the tables define.
pub open spec fn draw_wf(d: DrawCommand, n_points: nat) -> bool {
    match d {
        DrawCommand::MoveTo(p) => p <= n_points,
        DrawCommand::LineTo(p) => p <= n_points,
        _ => true,
    }
}

/// Every command of the sequence only names defined point ids.
pub open spec fn draws_wf(ds: Seq<DrawCommand>, n_points: nat) -> bool {
    forall|i: int| 0 <= i < ds.len() ==> draw_wf(#[trigger] ds[i], n_points)
}

} // verus!
