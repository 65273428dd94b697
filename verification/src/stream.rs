//! Lazy expansion and compilation.
//!
//! An expanded L-system grows exponentially with the generation count, so
//! materializing a whole generation can be impractical. [`ExpandStream`] is
//! a demand-driven producer of the same symbol sequence: at depth `d` each
//! symbol is lazily replaced by the depth-`d - 1` expansion of its
//! replacement string, bottoming out at depth 1 where symbols stream out
//! verbatim. Peak state is one frame per recursion level — depth times
//! branching factor — never the whole string. [`CommandStream`] feeds the
//! lazily expanded symbols through the interpretation table one symbol at a
//! time.
//!
//! Lazy and eager expansion agree: the stream's contract says the symbols
//! it yields are, in order, exactly [`expand_spec`] of the system —
//! the very sequence [`crate::l_system::LSystem::expand`] returns — and
//! [`lemma_lazy_expansion_is_eager`] proves the two readings of an
//! expansion equal.

use crate::l_system::{
    apply_rules_spec, cmds_for, compile_spec, copy_chars, expand_spec, interpret_syms, rule_for,
    Interpreter, LSystem, Rules,
};
use crate::draw::{DrawCommand, Drawing, Geometry};
use crate::turtle::{
    clone_command, clone_commands, init_state, pen_style, run_cmds, run_command, st, step,
    view_cmd, view_cmds, Cmd, Turtle, TurtleCommand,
};
use vstd::prelude::*;

verus! {

broadcast use vstd::std_specs::vec::group_vec_axioms, vstd::seq::group_seq_axioms;

/// The depth-`d` expansion of one symbol: the symbol itself at depth 0 or
/// 1, and otherwise the depth-`d - 1` expansion of its replacement.
pub open spec fn expand_char(rv: Seq<(char, Seq<char>)>, c: char, d: nat) -> Seq<char>
    decreases d, 0nat,
{
    if d <= 1 {
        seq![c]
    } else {
        expand_syms(rv, rule_for(rv, c), (d - 1) as nat)
    }
}

/// The depth-`d` expansion of a symbol string, symbol by symbol.
pub open spec fn expand_syms(rv: Seq<(char, Seq<char>)>, s: Seq<char>, d: nat) -> Seq<char>
    decreases d, s.len() + 1,
{
    if s.len() == 0 {
        Seq::empty()
    } else {
        expand_char(rv, s[0], d) + expand_syms(rv, s.drop_first(), d)
    }
}

pub proof fn lemma_expand_syms_append(
    rv: Seq<(char, Seq<char>)>,
    a: Seq<char>,
    b: Seq<char>,
    d: nat,
)
    ensures
        expand_syms(rv, a + b, d) == expand_syms(rv, a, d) + expand_syms(rv, b, d),
    decreases a.len(),
{
    if a.len() == 0 {
        assert(a + b =~= b);
        assert(Seq::<char>::empty() + expand_syms(rv, b, d) =~= expand_syms(rv, b, d));
    } else {
        assert((a + b)[0] == a[0]);
        assert((a + b).drop_first() =~= a.drop_first() + b);
        lemma_expand_syms_append(rv, a.drop_first(), b, d);
        assert(expand_char(rv, a[0], d) + (expand_syms(rv, a.drop_first(), d) + expand_syms(
            rv,
            b,
            d,
        )) =~= (expand_char(rv, a[0], d) + expand_syms(rv, a.drop_first(), d)) + expand_syms(
            rv,
            b,
            d,
        ));
    }
}

pub proof fn lemma_expand_syms_depth_one(rv: Seq<(char, Seq<char>)>, s: Seq<char>, d: nat)
    requires
        d <= 1,
    ensures
        expand_syms(rv, s, d) == s,
    decreases s.len(),
{
    if s.len() > 0 {
        lemma_expand_syms_depth_one(rv, s.drop_first(), d);
        assert(expand_char(rv, s[0], d) == seq![s[0]]);
        assert(expand_syms(rv, s, d) =~= s);
    }
}

/// Pushing one rewriting pass inside: expanding `s` to depth `d` is
/// expanding the rewritten string to depth `d - 1`.
pub proof fn lemma_expand_syms_shift(rv: Seq<(char, Seq<char>)>, s: Seq<char>, d: nat)
    requires
        d >= 2,
    ensures
        expand_syms(rv, s, d) == expand_syms(rv, apply_rules_spec(rv, s), (d - 1) as nat),
    decreases s.len(),
{
    if s.len() == 0 {
    } else {
        lemma_expand_syms_shift(rv, s.drop_first(), d);
        lemma_expand_syms_append(
            rv,
            rule_for(rv, s[0]),
            apply_rules_spec(rv, s.drop_first()),
            (d - 1) as nat,
        );
        assert(apply_rules_spec(rv, s) == rule_for(rv, s[0]) + apply_rules_spec(
            rv,
            s.drop_first(),
        ));
        assert(expand_syms(rv, s, d) == expand_char(rv, s[0], d) + expand_syms(
            rv,
            s.drop_first(),
            d,
        ));
        assert(expand_char(rv, s[0], d) == expand_syms(rv, rule_for(rv, s[0]), (d - 1) as nat));
    }
}

/// Lazy and eager expansion are the same sequence: the nested symbolwise
/// expansion at depth `n` equals `n` generations of eager rewriting.
pub proof fn lemma_lazy_expansion_is_eager(rv: Seq<(char, Seq<char>)>, s: Seq<char>, n: nat)
    ensures
        expand_syms(rv, s, n) == expand_spec(s, rv, n),
    decreases n,
{
    if n <= 1 {
        lemma_expand_syms_depth_one(rv, s, n);
    } else {
        lemma_expand_syms_shift(rv, s, n);
        lemma_lazy_expansion_is_eager(rv, apply_rules_spec(rv, s), (n - 1) as nat);
    }
}

/// Steps left in a symbol's expansion, the termination measure of
/// [`ExpandStream::next`].
pub open spec fn work_char(rv: Seq<(char, Seq<char>)>, c: char, d: nat) -> nat
    decreases d, 0nat,
{
    if d <= 1 {
        1
    } else {
        2 + work_syms(rv, rule_for(rv, c), (d - 1) as nat)
    }
}

/// Steps left in a string's expansion.
pub open spec fn work_syms(rv: Seq<(char, Seq<char>)>, s: Seq<char>, d: nat) -> nat
    decreases d, s.len() + 1,
{
    if s.len() == 0 {
        0
    } else {
        work_char(rv, s[0], d) + work_syms(rv, s.drop_first(), d)
    }
}

/// One suspended level of the expansion: the symbols of this level, the
/// index of the next one to expand, and the depth they are expanded to.
#[derive(Debug)]
pub struct Frame {
    pub syms: Vec<char>,
    pub idx: usize,
    pub depth: u32,
}

pub open spec fn frame_wf(f: Frame) -> bool {
    f.idx <= f.syms@.len()
}

/// The symbols a frame still owes.
pub open spec fn frame_rem(rv: Seq<(char, Seq<char>)>, f: Frame) -> Seq<char> {
    expand_syms(rv, f.syms@.skip(f.idx as int), f.depth as nat)
}

/// The symbols a frame stack still owes, topmost frame first.
pub open spec fn frames_rem(rv: Seq<(char, Seq<char>)>, fs: Seq<Frame>) -> Seq<char>
    decreases fs.len(),
{
    if fs.len() == 0 {
        Seq::empty()
    } else {
        frame_rem(rv, fs.last()) + frames_rem(rv, fs.drop_last())
    }
}

/// Steps left on a frame, counting one for retiring the frame itself.
pub open spec fn frame_work(rv: Seq<(char, Seq<char>)>, f: Frame) -> nat {
    1 + work_syms(rv, f.syms@.skip(f.idx as int), f.depth as nat)
}

/// Steps left on a frame stack.
pub open spec fn frames_work(rv: Seq<(char, Seq<char>)>, fs: Seq<Frame>) -> nat
    decreases fs.len(),
{
    if fs.len() == 0 {
        0
    } else {
        frame_work(rv, fs.last()) + frames_work(rv, fs.drop_last())
    }
}

/// A restartable, finite, demand-driven producer of one expansion. The
/// symbols already yielded and the symbols the frame stack still owes always
/// concatenate to `target`, the full expansion.
pub struct ExpandStream {
    pub rules: Rules,
    pub frames: Vec<Frame>,
    pub emitted: Ghost<Seq<char>>,
    pub target: Ghost<Seq<char>>,
}

impl ExpandStream {
    pub open spec fn wf(self) -> bool {
        &&& forall|i: int| 0 <= i < self.frames@.len() ==> frame_wf(#[trigger] self.frames@[i])
        &&& self.emitted@ + frames_rem(self.rules@, self.frames@) == self.target@
    }

    /// The next symbol of the expansion, or `None` once the whole `target`
    /// has been yielded.
    #[verifier::loop_isolation(false)]
    pub fn next(&mut self) -> (r: Option<char>)
        requires
            old(self).wf(),
        ensures
            final(self).wf(),
            final(self).rules@ == old(self).rules@,
            final(self).target@ == old(self).target@,
            match r {
                Some(c) => final(self).emitted@ == old(self).emitted@.push(c),
                None => final(self).emitted@ == old(self).emitted@ && old(self).emitted@ == old(
                    self,
                ).target@,
            },
    {
        let ghost rv = self.rules@;
        let ghost tgt = self.target@;
        let ghost em0 = self.emitted@;
        loop
            invariant
                self.wf(),
                self.rules@ == rv,
                self.target@ == tgt,
                self.emitted@ == em0,
            decreases frames_work(rv, self.frames@),
        {
            let ghost fs0 = self.frames@;
            match self.frames.pop() {
                None => {
                    return None;
                },
                Some(f) => {
                    let mut f = f;
                    let ghost f_top = f;
                    let ghost base = fs0.drop_last();
                    proof {
                        assert(fs0.last() == f_top);
                        assert(base =~= self.frames@);
                        assert(frames_rem(rv, fs0) == frame_rem(rv, f_top) + frames_rem(rv, base));
                        assert(frames_work(rv, fs0) == frame_work(rv, f_top) + frames_work(
                            rv,
                            base,
                        ));
                    }
                    if f.idx >= f.syms.len() {
                        proof {
                            assert(f.syms@.skip(f.idx as int) =~= Seq::<char>::empty());
                            assert(work_syms(rv, f.syms@.skip(f.idx as int), f.depth as nat) == 0);
                            assert(frame_rem(rv, f_top) =~= Seq::<char>::empty());
                            assert(frames_rem(rv, fs0) =~= frames_rem(rv, self.frames@));
                            assert(frames_work(rv, self.frames@) < frames_work(rv, fs0));
                        }
                    } else {
                        let c = f.syms[f.idx];
                        let ghost rest = f.syms@.skip(f.idx as int);
                        let ghost d = f.depth as nat;
                        proof {
                            assert(rest.len() > 0);
                            assert(rest[0] == f.syms@[f.idx as int]);
                            assert(rest.drop_first() =~= f.syms@.skip(f.idx as int + 1));
                            assert(frame_rem(rv, f_top) == expand_char(rv, c, d) + expand_syms(
                                rv,
                                rest.drop_first(),
                                d,
                            ));
                            assert(work_syms(rv, rest, d) == work_char(rv, c, d) + work_syms(
                                rv,
                                rest.drop_first(),
                                d,
                            ));
                        }
                        if f.depth <= 1 {
                            f.idx = f.idx + 1;
                            self.frames.push(f);
                            proof {
                                assert(self.frames@.last() == f);
                                assert(self.frames@.drop_last() =~= base);
                                assert(frames_rem(rv, self.frames@) == frame_rem(rv, f)
                                    + frames_rem(rv, base));
                                assert(expand_char(rv, c, d) =~= seq![c]);
                                assert(frame_rem(rv, f_top) =~= seq![c] + frame_rem(rv, f));
                                assert(em0 + (seq![c] + (frame_rem(rv, f) + frames_rem(rv, base)))
                                    =~= em0.push(c) + (frame_rem(rv, f) + frames_rem(rv, base)));
                                assert((seq![c] + frame_rem(rv, f)) + frames_rem(rv, base) =~= seq![
                                    c,
                                ] + (frame_rem(rv, f) + frames_rem(rv, base)));
                                assert(forall|i: int|
                                    0 <= i < base.len() ==> #[trigger] self.frames@[i] == fs0[i]);
                            }
                            self.emitted = Ghost(self.emitted@.push(c));
                            proof {
                                assert(self.emitted@ + frames_rem(rv, self.frames@) == tgt);
                            }
                            return Some(c);
                        } else {
                            let rep = self.rules.get_as_string(c);
                            let depth: u32 = f.depth;
                            f.idx = f.idx + 1;
                            self.frames.push(f);
                            let ghost fs1 = self.frames@;
                            let child = Frame { syms: rep, idx: 0, depth: depth - 1 };
                            self.frames.push(child);
                            proof {
                                assert(fs1.last() == f);
                                assert(fs1.drop_last() =~= base);
                                assert(self.frames@.last() == child);
                                assert(self.frames@.drop_last() =~= fs1);
                                assert(frames_rem(rv, fs1) == frame_rem(rv, f) + frames_rem(
                                    rv,
                                    base,
                                ));
                                assert(frames_rem(rv, self.frames@) == frame_rem(rv, child)
                                    + frames_rem(rv, fs1));
                                assert(child.syms@.skip(0) =~= rule_for(rv, c));
                                assert(frame_rem(rv, child) == expand_char(rv, c, d));
                                assert(frame_rem(rv, f_top) =~= expand_char(rv, c, d) + frame_rem(
                                    rv,
                                    f,
                                ));
                                assert((expand_char(rv, c, d) + frame_rem(rv, f)) + frames_rem(
                                    rv,
                                    base,
                                ) =~= expand_char(rv, c, d) + (frame_rem(rv, f) + frames_rem(
                                    rv,
                                    base,
                                )));
                                assert(self.emitted@ + frames_rem(rv, self.frames@) == tgt);
                                assert(forall|i: int|
                                    0 <= i < base.len() ==> #[trigger] self.frames@[i] == fs0[i]);
                                // termination: one step of work was retired
                                assert(work_char(rv, c, d) == 2 + work_syms(
                                    rv,
                                    rule_for(rv, c),
                                    (d - 1) as nat,
                                ));
                                assert(frames_work(rv, fs1) == frame_work(rv, f) + frames_work(
                                    rv,
                                    base,
                                ));
                                assert(frames_work(rv, self.frames@) == frame_work(rv, child)
                                    + frames_work(rv, fs1));
                                assert(frame_work(rv, child) == 1 + work_syms(
                                    rv,
                                    rule_for(rv, c),
                                    (d - 1) as nat,
                                ));
                                assert(frames_work(rv, self.frames@) < frames_work(rv, fs0));
                            }
                        }
                    }
                },
            }
        }
    }

    /// Materializes everything the stream still owes, in order.
    #[verifier::loop_isolation(false)]
    pub fn to_vec(self) -> (r: Vec<char>)
        requires
            self.wf(),
        ensures
            self.emitted@ + r@ == self.target@,
    {
        let mut stream = self;
        let ghost tgt = stream.target@;
        let ghost em0 = stream.emitted@;
        let mut out: Vec<char> = Vec::new();
        loop
            invariant
                stream.wf(),
                stream.target@ == tgt,
                em0 + out@ == stream.emitted@,
            decreases tgt.len() - stream.emitted@.len(),
        {
            match stream.next() {
                Some(c) => {
                    out.push(c);
                },
                None => {
                    proof {
                        assert(em0 + out@ =~= tgt);
                    }
                    return out;
                },
            }
        }
    }
}

/// A demand-driven producer of a compiled turtle program: the lazily
/// expanded symbols of [`ExpandStream`], each mapped through the
/// interpretation table, one command per pull. The commands already yielded
/// and the commands still owed always concatenate to `target`, the whole
/// compiled program.
pub struct CommandStream {
    pub interp: Interpreter,
    pub syms: ExpandStream,
    pub pending: Vec<TurtleCommand>,
    pub pidx: usize,
    pub emitted: Ghost<Seq<Cmd>>,
    pub target: Ghost<Seq<Cmd>>,
}

impl CommandStream {
    /// The symbols the inner stream still owes.
    pub open spec fn syms_rem(self) -> Seq<char> {
        self.syms.target@.skip(self.syms.emitted@.len() as int)
    }

    pub open spec fn wf(self) -> bool {
        &&& self.syms.wf()
        &&& self.pidx <= self.pending@.len()
        &&& self.emitted@ + view_cmds(self.pending@.skip(self.pidx as int)) + interpret_syms(
            self.interp@,
            self.syms_rem(),
        ) == self.target@
    }

    /// The next command of the compiled program, or `None` once the whole
    /// `target` has been yielded.
    #[verifier::loop_isolation(false)]
    pub fn next(&mut self) -> (r: Option<TurtleCommand>)
        requires
            old(self).wf(),
        ensures
            final(self).wf(),
            final(self).interp@ == old(self).interp@,
            final(self).target@ == old(self).target@,
            match r {
                Some(cmd) => final(self).emitted@ == old(self).emitted@.push(view_cmd(cmd)),
                None => final(self).emitted@ == old(self).emitted@ && old(self).emitted@ == old(
                    self,
                ).target@,
            },
    {
        let ghost iv = self.interp@;
        let ghost tgt = self.target@;
        let ghost em0 = self.emitted@;
        loop
            invariant
                self.wf(),
                self.interp@ == iv,
                self.target@ == tgt,
                self.emitted@ == em0,
            decreases self.syms.target@.len() - self.syms.emitted@.len(),
        {
            if self.pidx < self.pending.len() {
                let ghost pv = self.pending@.skip(self.pidx as int);
                let ghost rest_cmds = interpret_syms(iv, self.syms_rem());
                proof {
                    assert(pv.len() > 0);
                    assert(pv[0] == self.pending@[self.pidx as int]);
                    assert(pv.drop_first() =~= self.pending@.skip(self.pidx as int + 1));
                    assert(view_cmds(pv) == seq![view_cmd(pv[0])] + view_cmds(pv.drop_first()));
                }
                let cmd = clone_command(&self.pending[self.pidx]);
                self.pidx = self.pidx + 1;
                proof {
                    let vc = view_cmd(cmd);
                    let rest = view_cmds(self.pending@.skip(self.pidx as int));
                    assert((em0 + (seq![vc] + rest)) + rest_cmds =~= ((em0.push(vc) + rest)
                        + rest_cmds));
                }
                self.emitted = Ghost(self.emitted@.push(view_cmd(cmd)));
                return Some(cmd);
            }
            let ghost srem0 = self.syms_rem();
            let ghost k = self.syms.emitted@.len() as int;
            proof {
                assert(self.pending@.skip(self.pidx as int) =~= Seq::<TurtleCommand>::empty());
                assert(view_cmds(self.pending@.skip(self.pidx as int)) == Seq::<Cmd>::empty());
                assert(em0 + Seq::<Cmd>::empty() =~= em0);
                assert(em0 + interpret_syms(iv, srem0) == tgt);
            }
            match self.syms.next() {
                Some(c) => {
                    proof {
                        let st = self.syms.target@;
                        assert(self.syms.emitted@ + frames_rem(
                            self.syms.rules@,
                            self.syms.frames@,
                        ) == st);
                        assert(st[k] == self.syms.emitted@[k]);
                        assert(st[k] == c);
                        assert(srem0.len() > 0);
                        assert(srem0[0] == c);
                        assert(srem0.drop_first() =~= self.syms_rem());
                        assert(interpret_syms(iv, srem0) == cmds_for(iv, c) + interpret_syms(
                            iv,
                            self.syms_rem(),
                        ));
                    }
                    let new_pending = match self.interp.get(&c) {
                        Some(v) => clone_commands(v),
                        None => Vec::new(),
                    };
                    self.pending = new_pending;
                    self.pidx = 0;
                    proof {
                        assert(self.pending@.skip(0) =~= self.pending@);
                        assert(view_cmds(self.pending@) == cmds_for(iv, c));
                        assert((em0 + cmds_for(iv, c)) + interpret_syms(iv, self.syms_rem()) =~= em0
                            + (cmds_for(iv, c) + interpret_syms(iv, self.syms_rem())));
                    }
                },
                None => {
                    proof {
                        assert(srem0 =~= Seq::<char>::empty());
                        assert(interpret_syms(iv, srem0) == Seq::<Cmd>::empty());
                        assert(em0 + Seq::<Cmd>::empty() =~= em0);
                    }
                    return None;
                },
            }
        }
    }

    /// Streaming execution: pulls the compiled program one command at a
    /// time and feeds each to the turtle machine, framing the output as
    /// [`crate::turtle::TurtleProgram::execute`] does. The drawing is —
    /// provably — the one the eager path produces for the same `target`:
    /// the per-command semantics, the stack discipline and the emission
    /// order are the machine's own.
    ///
    /// The starting turtle must stand at the origin with the initial
    /// heading, the one position and heading an empty geometry table
    /// defines.
    #[verifier::loop_isolation(false)]
    pub fn execute(self, turtle: Turtle) -> (d: Drawing)
        requires
            self.wf(),
            self.emitted@ == Seq::<Cmd>::empty(),
            turtle.location == 0,
            turtle.orientation == 0,
        ensures
            ({
                let r = run_cmds(init_state(turtle), self.target@);
                d.commands@ == seq![DrawCommand::BeginPath] + pen_style(turtle.pen)
                    + seq![DrawCommand::MoveTo(turtle.location)] + r.1
                    + seq![DrawCommand::Stroke] && d.geometry.angles@ == r.0.angles
                    && d.geometry.points@ == r.0.points
            }),
    {
        let mut stream = self;
        let ghost t0 = turtle;
        let ghost tgt = stream.target@;
        let mut turtle = turtle;
        let mut stack: Vec<Turtle> = Vec::new();
        let mut geom = Geometry::new();
        let mut out: Vec<DrawCommand> = Vec::new();
        out.push(DrawCommand::BeginPath);
        let mut style = turtle.pen.run();
        out.append(&mut style);
        out.push(DrawCommand::MoveTo(turtle.location));
        let ghost framing = seq![DrawCommand::BeginPath] + pen_style(t0.pen) + seq![
            DrawCommand::MoveTo(t0.location),
        ];
        proof {
            assert(out@ =~= framing);
            assert(st(turtle, stack@, geom) =~= init_state(t0));
            assert(framing + Seq::<DrawCommand>::empty() =~= framing);
        }
        loop
            invariant
                stream.wf(),
                stream.target@ == tgt,
                ({
                    let r = run_cmds(init_state(t0), stream.emitted@);
                    st(turtle, stack@, geom) == r.0 && out@ == framing + r.1
                }),
            decreases tgt.len() - stream.emitted@.len(),
        {
            let ghost em_old = stream.emitted@;
            let ghost out_pre = out@;
            match stream.next() {
                Some(cmd) => {
                    let mut o = run_command(&mut turtle, &cmd, &mut stack, &mut geom);
                    out.append(&mut o);
                    proof {
                        crate::laws::lemma_run_cmds_snoc(init_state(t0), em_old, view_cmd(cmd));
                        let r = run_cmds(init_state(t0), em_old);
                        let r2 = step(r.0, view_cmd(cmd));
                        assert((framing + r.1) + r2.1 =~= framing + (r.1 + r2.1));
                    }
                },
                None => {
                    out.push(DrawCommand::Stroke);
                    proof {
                        let r = run_cmds(init_state(t0), tgt);
                        assert(out@ =~= seq![DrawCommand::BeginPath] + pen_style(t0.pen) + seq![
                            DrawCommand::MoveTo(t0.location),
                        ] + r.1 + seq![DrawCommand::Stroke]);
                    }
                    return Drawing { commands: out, geometry: geom };
                },
            }
        }
    }

    /// Materializes everything the stream still owes, in order.
    #[verifier::loop_isolation(false)]
    pub fn to_vec(self) -> (r: Vec<TurtleCommand>)
        requires
            self.wf(),
        ensures
            self.emitted@ + view_cmds(r@) == self.target@,
    {
        let mut stream = self;
        let ghost tgt = stream.target@;
        let ghost em0 = stream.emitted@;
        let mut out: Vec<TurtleCommand> = Vec::new();
        proof {
            assert(em0 + view_cmds(out@) =~= em0);
        }
        loop
            invariant
                stream.wf(),
                stream.target@ == tgt,
                em0 + view_cmds(out@) == stream.emitted@,
            decreases tgt.len() - stream.emitted@.len(),
        {
            match stream.next() {
                Some(cmd) => {
                    let ghost out0 = out@;
                    let ghost cmd0 = cmd;
                    out.push(cmd);
                    proof {
                        assert(out@ =~= out0 + seq![cmd0]);
                        crate::turtle::lemma_view_cmds_append(out0, seq![cmd0]);
                        assert(seq![cmd0].drop_first() =~= Seq::<TurtleCommand>::empty());
                        assert(view_cmds(seq![cmd0]) =~= seq![view_cmd(cmd0)]);
                        assert(em0 + (view_cmds(out0) + seq![view_cmd(cmd0)]) =~= (em0 + view_cmds(
                            out0,
                        )).push(view_cmd(cmd0)));
                    }
                },
                None => {
                    proof {
                        assert(em0 + view_cmds(out@) =~= tgt);
                    }
                    return out;
                },
            }
        }
    }
}

impl LSystem {
    /// A lazy producer of generation `iterations`: it yields, one symbol per
    /// pull, exactly the sequence [`LSystem::expand`] returns, without
    /// materializing any intermediate generation.
    pub fn expand_stream(&self, iterations: u32) -> (r: ExpandStream)
        ensures
            r.wf(),
            r.emitted@ == Seq::<char>::empty(),
            r.target@ == expand_spec(self@.start, self@.rules, iterations as nat),
            r.rules@ == self@.rules,
    {
        let ghost rv = self@.rules;
        let root = Frame { syms: copy_chars(&self.start), idx: 0, depth: iterations };
        let mut frames: Vec<Frame> = Vec::new();
        frames.push(root);
        let r = ExpandStream {
            rules: self.rules.duplicate(),
            frames,
            emitted: Ghost(Seq::empty()),
            target: Ghost(expand_spec(self@.start, self@.rules, iterations as nat)),
        };
        proof {
            assert(r.frames@.len() == 1);
            assert(r.frames@.last() == root);
            assert(r.frames@.drop_last() =~= Seq::<Frame>::empty());
            assert(root.syms@.skip(0) =~= self@.start);
            lemma_lazy_expansion_is_eager(rv, self@.start, iterations as nat);
            assert(frame_rem(rv, root) + Seq::<char>::empty() =~= frame_rem(rv, root));
            assert(Seq::<char>::empty() + frames_rem(rv, r.frames@) =~= frames_rem(rv, r.frames@));
            assert(frame_wf(root));
            assert(forall|i: int| 0 <= i < r.frames@.len() ==> frame_wf(#[trigger] r.frames@[i]));
            assert(frames_rem(rv, r.frames@) == frame_rem(rv, root) + frames_rem(
                rv,
                r.frames@.drop_last(),
            ));
            assert(frames_rem(rv, r.frames@.drop_last()) == Seq::<char>::empty());
            assert(frame_rem(rv, root) == expand_syms(rv, self@.start, iterations as nat));
            assert(r.emitted@ + frames_rem(rv, r.frames@) == r.target@);
        }
        r
    }

    /// A lazy producer of the compiled program of generation `iterations`:
    /// it yields, one command per pull, exactly the command sequence
    /// [`LSystem::compile`] builds, feeding the lazily expanded symbols
    /// through the interpretation table.
    pub fn compile_stream(&self, iterations: u32) -> (r: CommandStream)
        ensures
            r.wf(),
            r.emitted@ == Seq::<Cmd>::empty(),
            r.target@ == compile_spec(self@, iterations as nat),
    {
        let syms = self.expand_stream(iterations);
        let r = CommandStream {
            interp: self.interpreter.duplicate(),
            syms,
            pending: Vec::new(),
            pidx: 0,
            emitted: Ghost(Seq::empty()),
            target: Ghost(compile_spec(self@, iterations as nat)),
        };
        proof {
            let iv = self@.interp;
            assert(r.pending@.skip(0) =~= Seq::<TurtleCommand>::empty());
            assert(view_cmds(r.pending@.skip(0)) == Seq::<Cmd>::empty());
            assert(r.syms_rem() =~= r.syms.target@);
            assert((r.emitted@ + Seq::<Cmd>::empty()) + interpret_syms(iv, r.syms_rem())
                =~= interpret_syms(iv, expand_spec(self@.start, self@.rules, iterations as nat)));
        }
        r
    }
}

} // verus!
