//! Laws of the rewriting engine and of the turtle machine.
//!
//! Each proof function here states, over the specification functions of
//! [`crate::l_system`] and [`crate::turtle`], a property the library
//! guarantees of every system and every program — not of chosen inputs.

use crate::draw::DrawCommand;
use crate::l_system::{apply_rules_spec, expand_spec, lemma_expand_peel, rule_for};
use crate::turtle::{
    pen_style, run_cmds, step, step_repeat, Cmd, RunState,
};
use vstd::prelude::*;

verus! {

/// Generations 0 and 1 are both the axiom unchanged: a generation count of
/// `n` means `n - 1` rewriting passes, and counts 0 and 1 alike apply none.
pub proof fn lemma_expand_first_generations(s: Seq<char>, rv: Seq<(char, Seq<char>)>)
    ensures
        expand_spec(s, rv, 0) == s,
        expand_spec(s, rv, 1) == s,
{
}

/// No rule of the table replaces a symbol by the empty string. Symbols
/// without an entry replace themselves, so every replacement then has
/// length at least 1.
pub open spec fn rules_nonshrinking(rv: Seq<(char, Seq<char>)>) -> bool {
    forall|i: int| 0 <= i < rv.len() ==> (#[trigger] rv[i]).1.len() >= 1
}

pub proof fn lemma_rule_for_nonshrinking(rv: Seq<(char, Seq<char>)>, c: char)
    requires
        rules_nonshrinking(rv),
    ensures
        rule_for(rv, c).len() >= 1,
    decreases rv.len(),
{
    if rv.len() > 0 && rv.last().0 != c {
        assert(rules_nonshrinking(rv.drop_last())) by {
            assert(forall|i: int|
                0 <= i < rv.drop_last().len() ==> #[trigger] rv.drop_last()[i] == rv[i]);
        }
        lemma_rule_for_nonshrinking(rv.drop_last(), c);
    }
}

/// One rewriting pass under a non-shrinking rule table never shortens the
/// string.
pub proof fn lemma_apply_rules_grows(rv: Seq<(char, Seq<char>)>, s: Seq<char>)
    requires
        rules_nonshrinking(rv),
    ensures
        apply_rules_spec(rv, s).len() >= s.len(),
    decreases s.len(),
{
    if s.len() > 0 {
        lemma_rule_for_nonshrinking(rv, s[0]);
        lemma_apply_rules_grows(rv, s.drop_first());
    }
}

/// Monotonic growth: when every replacement has length at least 1, each
/// further generation is at least as long as the one before it, for every
/// generation count `n >= 1`.
pub proof fn lemma_expand_monotone(s: Seq<char>, rv: Seq<(char, Seq<char>)>, n: nat)
    requires
        n >= 1,
        rules_nonshrinking(rv),
    ensures
        expand_spec(s, rv, n + 1).len() >= expand_spec(s, rv, n).len(),
{
    lemma_expand_peel(s, rv, n + 1);
    lemma_apply_rules_grows(rv, expand_spec(s, rv, n));
}

/// Running `a` followed by `b` is running `a ++ b`: the state threads
/// through, and the emissions concatenate in order. This is also the order
/// guarantee of streaming interpretation: feeding a program to the machine
/// one command at a time yields exactly the primitives of the whole run, in
/// the same order.
pub proof fn lemma_run_cmds_append(s: RunState, a: Seq<Cmd>, b: Seq<Cmd>)
    ensures
        ({
            let r1 = run_cmds(s, a);
            let r2 = run_cmds(r1.0, b);
            run_cmds(s, a + b) == (r2.0, r1.1 + r2.1)
        }),
    decreases a.len(),
{
    let r1 = run_cmds(s, a);
    let r2 = run_cmds(r1.0, b);
    if a.len() == 0 {
        assert(a + b =~= b);
        assert(Seq::<DrawCommand>::empty() + r2.1 =~= r2.1);
    } else {
        let s1 = step(s, a[0]).0;
        let o1 = step(s, a[0]).1;
        assert((a + b)[0] == a[0]);
        assert((a + b).drop_first() =~= a.drop_first() + b);
        lemma_run_cmds_append(s1, a.drop_first(), b);
        let q1 = run_cmds(s1, a.drop_first());
        let q2 = run_cmds(q1.0, b);
        assert(o1 + (q1.1 + q2.1) =~= (o1 + q1.1) + q2.1);
    }
}

/// One more command after a run: the machine steps once from where the run
/// left it, and the emission extends at the end.
pub proof fn lemma_run_cmds_snoc(s: RunState, a: Seq<Cmd>, c: Cmd)
    ensures
        ({
            let r = run_cmds(s, a);
            let r2 = step(r.0, c);
            run_cmds(s, a.push(c)) == (r2.0, r.1 + r2.1)
        }),
{
    let r = run_cmds(s, a);
    let r2 = step(r.0, c);
    lemma_run_cmds_append(s, a, seq![c]);
    assert(a.push(c) =~= a + seq![c]);
    assert(seq![c].drop_first() =~= Seq::<Cmd>::empty());
    assert(seq![c][0] == c);
    assert(run_cmds(r2.0, Seq::<Cmd>::empty()) == (r2.0, Seq::<DrawCommand>::empty()));
    let one = run_cmds(r.0, seq![c]);
    assert(one.0 == r2.0 && one.1 == r2.1 + Seq::<DrawCommand>::empty());
    assert(r2.1 + Seq::<DrawCommand>::empty() =~= r2.1);
}

/// `Push` immediately followed by `Pop` restores location, orientation and
/// pen exactly — the whole state is unchanged — and emits exactly a `MoveTo`
/// of the pre-push location followed by the pen-style primitives.
pub proof fn lemma_push_pop_round_trip(s: RunState)
    ensures
        ({
            let r = run_cmds(s, seq![Cmd::Push, Cmd::Pop]);
            r.0 == s && r.1 == seq![DrawCommand::MoveTo(s.turtle.location)] + pen_style(
                s.turtle.pen,
            )
        }),
{
    let cs = seq![Cmd::Push, Cmd::Pop];
    assert(cs[0] == Cmd::Push);
    assert(cs.drop_first().len() == 1);
    assert(cs.drop_first()[0] == Cmd::Pop);
    assert(cs.drop_first().drop_first().len() == 0);
    let s1 = step(s, Cmd::Push).0;
    assert(s1.stack.last() == s.turtle);
    assert(s1.stack.drop_last() =~= s.stack);
    let popped = step(s1, Cmd::Pop);
    assert(popped.0 =~= s);
    let rest = run_cmds(popped.0, cs.drop_first().drop_first());
    let inner = run_cmds(s1, cs.drop_first());
    assert(inner.0 == rest.0 && inner.1 == popped.1 + rest.1);
    let r = run_cmds(s, cs);
    assert(r.0 == inner.0 && r.1 == step(s, Cmd::Push).1 + inner.1);
    assert(r.1 =~= popped.1);
}

/// The literal unrolling of a repeat body: `body` concatenated `n` times.
pub open spec fn repeat_seq(body: Seq<Cmd>, n: nat) -> Seq<Cmd>
    decreases n,
{
    if n == 0 {
        Seq::empty()
    } else {
        body + repeat_seq(body, (n - 1) as nat)
    }
}

/// `Repeat(n, body)` is equivalent to `body` written out literally `n`
/// times, for every `n` — including `n == 0`, which runs nothing and emits
/// nothing, and `n == 1`, which is `body` itself.
pub proof fn lemma_repeat_is_concat(s: RunState, n: nat, body: Seq<Cmd>)
    ensures
        step_repeat(s, n, body) == run_cmds(s, repeat_seq(body, n)),
        step(s, Cmd::Repeat(n, body)) == run_cmds(s, repeat_seq(body, n)),
    decreases n,
{
    if n == 0 {
    } else {
        let r1 = run_cmds(s, body);
        lemma_repeat_is_concat(r1.0, (n - 1) as nat, body);
        lemma_run_cmds_append(s, body, repeat_seq(body, (n - 1) as nat));
    }
}

/// Commands that are invisible to the surface: turns and raising the pen.
pub open spec fn is_invisible(c: Cmd) -> bool {
    c is Turn || c is PenUp
}

/// A program of turns and pen-raises alone emits no primitive at all, and
/// neither moves the turtle nor touches the save stack or the point table.
/// Under the framing of [`crate::turtle::TurtleProgram::execute`], such a
/// program's whole output is the fixed framing.
pub proof fn lemma_invisible_commands_emit_nothing(s: RunState, cs: Seq<Cmd>)
    requires
        forall|i: int| 0 <= i < cs.len() ==> is_invisible(#[trigger] cs[i]),
    ensures
        run_cmds(s, cs).1 == Seq::<DrawCommand>::empty(),
        run_cmds(s, cs).0.turtle.location == s.turtle.location,
        run_cmds(s, cs).0.stack == s.stack,
        run_cmds(s, cs).0.points == s.points,
    decreases cs.len(),
{
    if cs.len() > 0 {
        let s1 = step(s, cs[0]).0;
        lemma_invisible_commands_emit_nothing(s1, cs.drop_first());
        assert(run_cmds(s, cs).1 =~= Seq::<DrawCommand>::empty());
    }
}

/// `Pop` on an empty stack is not an error: it leaves the whole state —
/// turtle included — unchanged and emits nothing.
pub proof fn lemma_pop_on_empty_stack(s: RunState)
    requires
        s.stack.len() == 0,
    ensures
        step(s, Cmd::Pop) == (s, Seq::<DrawCommand>::empty()),
{
}

} // verus!

