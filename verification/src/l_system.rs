//! The L-system rewriting engine.
//!
//! An [`LSystem`] holds an axiom, a rule table (symbol to replacement
//! string) and an interpretation table (symbol to turtle commands).
//! [`LSystem::expand`] rewrites the axiom for a requested generation count —
//! `n` generations means `n - 1` rewriting passes, so generations 0 and 1
//! are both the axiom unchanged — and [`LSystem::compile`] turns the result
//! into a turtle program. A symbol without a rule rewrites to itself; a
//! symbol without an interpretation contributes no commands.
//!
//! Both tables keep their entries in insertion order; a later entry for the
//! same symbol overrides an earlier one, so lookup takes the last match.

use crate::turtle::{
    clone_commands, initial_turtle, view_cmds, Cmd, Turtle, TurtleCommand, TurtleProgram,
};
use vstd::prelude::*;

verus! {

broadcast use vstd::std_specs::vec::group_vec_axioms, vstd::seq::group_seq_axioms;

/// Copies a symbol string.
pub fn copy_chars(v: &Vec<char>) -> (r: Vec<char>)
    ensures
        r@ == v@,
{
    let mut r: Vec<char> = Vec::new();
    for i in 0..v.len()
        invariant
            r@.len() == i,
            forall|j: int| 0 <= j < i ==> r@[j] == v@[j],
    {
        r.push(v[i]);
    }
    proof {
        assert(r@ =~= v@);
    }
    r
}

/// The symbols of a text, in order.
pub fn str_to_chars(s: &str) -> (r: Vec<char>)
    ensures
        r@ == s@,
{
    let n: usize = s.unicode_len();
    let mut r: Vec<char> = Vec::new();
    for i in 0..n
        invariant
            n == s@.len(),
            r@.len() == i,
            forall|j: int| 0 <= j < i ==> r@[j] == s@[j],
    {
        r.push(s.get_char(i));
    }
    proof {
        assert(r@ =~= s@);
    }
    r
}

/// The mathematical form of a rule table: entries in insertion order.
pub open spec fn rules_view(e: Seq<(char, Vec<char>)>) -> Seq<(char, Seq<char>)> {
    e.map_values(|p: (char, Vec<char>)| (p.0, p.1@))
}

/// The replacement the table gives `c`: the value of the last entry for
/// `c`, or `c` itself where there is none.
pub open spec fn rule_for(rv: Seq<(char, Seq<char>)>, c: char) -> Seq<char>
    decreases rv.len(),
{
    if rv.len() == 0 {
        seq![c]
    } else if rv.last().0 == c {
        rv.last().1
    } else {
        rule_for(rv.drop_last(), c)
    }
}

/// One rewriting pass: every symbol replaced by its rule, in order.
pub open spec fn apply_rules_spec(rv: Seq<(char, Seq<char>)>, s: Seq<char>) -> Seq<char>
    decreases s.len(),
{
    if s.len() == 0 {
        Seq::empty()
    } else {
        rule_for(rv, s[0]) + apply_rules_spec(rv, s.drop_first())
    }
}

/// `n` generations of `s`: `n - 1` rewriting passes; generations 0 and 1
/// are `s` unchanged.
pub open spec fn expand_spec(s: Seq<char>, rv: Seq<(char, Seq<char>)>, n: nat) -> Seq<char>
    decreases n,
{
    if n <= 1 {
        s
    } else {
        expand_spec(apply_rules_spec(rv, s), rv, (n - 1) as nat)
    }
}

/// The outermost pass of an expansion: for `n >= 2`, generation `n` is one
/// pass over generation `n - 1`.
pub proof fn lemma_expand_peel(s: Seq<char>, rv: Seq<(char, Seq<char>)>, n: nat)
    requires
        n >= 2,
    ensures
        expand_spec(s, rv, n) == apply_rules_spec(rv, expand_spec(s, rv, (n - 1) as nat)),
    decreases n,
{
    if n == 2 {
        assert(expand_spec(s, rv, 2) == expand_spec(apply_rules_spec(rv, s), rv, 1));
        assert(expand_spec(apply_rules_spec(rv, s), rv, 1) == apply_rules_spec(rv, s));
        assert(expand_spec(s, rv, 1) == s);
    } else {
        lemma_expand_peel(apply_rules_spec(rv, s), rv, (n - 1) as nat);
        assert(expand_spec(s, rv, (n - 1) as nat) == expand_spec(
            apply_rules_spec(rv, s),
            rv,
            (n - 2) as nat,
        ));
    }
}

/// The rewriting-rule table of an L-system.
#[derive(Debug, PartialEq)]
pub struct Rules {
    pub inner: Vec<(char, Vec<char>)>,
}

impl View for Rules {
    type V = Seq<(char, Seq<char>)>;

    open spec fn view(&self) -> Seq<(char, Seq<char>)> {
        rules_view(self.inner@)
    }
}

impl Rules {
    /// A table holding the given entries, in order.
    pub fn from(inner: Vec<(char, Vec<char>)>) -> (r: Rules)
        ensures
            r@ == rules_view(inner@),
    {
        Rules { inner }
    }

    /// The replacement string for `c`: the last entry for `c`, or the
    /// one-symbol string `c` where the table has none.
    pub fn get_as_string(&self, c: char) -> (r: Vec<char>)
        ensures
            r@ == rule_for(self@, c),
    {
        proof {
            assert(self@.take(self@.len() as int) =~= self@);
        }
        let mut i: usize = self.inner.len();
        while i > 0
            invariant
                i <= self.inner.len(),
                rule_for(self@, c) == rule_for(self@.take(i as int), c),
            decreases i,
        {
            i = i - 1;
            let entry = &self.inner[i];
            proof {
                assert(self@.take(i as int + 1).last() == self@[i as int]);
                assert(self@.take(i as int + 1).drop_last() =~= self@.take(i as int));
            }
            if entry.0 == c {
                return copy_chars(&entry.1);
            }
        }
        proof {
            assert(self@.take(0) =~= Seq::<(char, Seq<char>)>::empty());
        }
        let mut r: Vec<char> = Vec::new();
        r.push(c);
        proof {
            assert(r@ =~= seq![c]);
        }
        r
    }
}

impl Rules {
    /// A copy of the table, entry for entry.
    pub fn duplicate(&self) -> (r: Rules)
        ensures
            r@ == self@,
    {
        let mut inner: Vec<(char, Vec<char>)> = Vec::new();
        for i in 0..self.inner.len()
            invariant
                inner@.len() == i,
                forall|j: int|
                    0 <= j < i ==> (#[trigger] inner@[j]).0 == self.inner@[j].0 && inner@[j].1@
                        == self.inner@[j].1@,
        {
            let entry = &self.inner[i];
            let syms = copy_chars(&entry.1);
            inner.push((entry.0, syms));
        }
        let r = Rules { inner };
        proof {
            assert(r@ =~= self@);
        }
        r
    }
}

/// The mathematical form of an interpretation table: entries in insertion
/// order.
pub open spec fn interp_view(e: Seq<(char, Vec<TurtleCommand>)>) -> Seq<(char, Seq<Cmd>)> {
    e.map_values(|p: (char, Vec<TurtleCommand>)| (p.0, view_cmds(p.1@)))
}

/// The commands the table gives `c`: the value of the last entry for `c`,
/// or no commands where there is none.
pub open spec fn cmds_for(iv: Seq<(char, Seq<Cmd>)>, c: char) -> Seq<Cmd>
    decreases iv.len(),
{
    if iv.len() == 0 {
        Seq::empty()
    } else if iv.last().0 == c {
        iv.last().1
    } else {
        cmds_for(iv.drop_last(), c)
    }
}

/// Every symbol of a string mapped through the interpretation table, the
/// command lists concatenated in symbol order.
pub open spec fn interpret_syms(iv: Seq<(char, Seq<Cmd>)>, s: Seq<char>) -> Seq<Cmd>
    decreases s.len(),
{
    if s.len() == 0 {
        Seq::empty()
    } else {
        cmds_for(iv, s[0]) + interpret_syms(iv, s.drop_first())
    }
}

/// The symbol-to-commands table of an L-system.
#[derive(Debug, PartialEq)]
pub struct Interpreter {
    pub inner: Vec<(char, Vec<TurtleCommand>)>,
}

impl View for Interpreter {
    type V = Seq<(char, Seq<Cmd>)>;

    open spec fn view(&self) -> Seq<(char, Seq<Cmd>)> {
        interp_view(self.inner@)
    }
}

impl Interpreter {
    /// A table holding the given entries, in order.
    pub fn from(inner: Vec<(char, Vec<TurtleCommand>)>) -> (r: Interpreter)
        ensures
            r@ == interp_view(inner@),
    {
        Interpreter { inner }
    }

    /// The command list for `c`, or `None` exactly where the table has no
    /// entry for `c`.
    pub fn get(&self, c: &char) -> (r: Option<&Vec<TurtleCommand>>)
        ensures
            r is Some <==> exists|i: int| 0 <= i < self@.len() && (#[trigger] self@[i]).0 == *c,
            match r {
                Some(v) => view_cmds(v@) == cmds_for(self@, *c),
                None => cmds_for(self@, *c) == Seq::<Cmd>::empty(),
            },
    {
        proof {
            assert(self@.take(self@.len() as int) =~= self@);
        }
        let mut i: usize = self.inner.len();
        while i > 0
            invariant
                i <= self.inner.len(),
                cmds_for(self@, *c) == cmds_for(self@.take(i as int), *c),
                forall|j: int| i <= j < self@.len() ==> (#[trigger] self@[j]).0 != *c,
            decreases i,
        {
            i = i - 1;
            let entry = &self.inner[i];
            proof {
                assert(self@.take(i as int + 1).last() == self@[i as int]);
                assert(self@.take(i as int + 1).drop_last() =~= self@.take(i as int));
            }
            if entry.0 == *c {
                return Some(&entry.1);
            }
        }
        proof {
            assert(self@.take(0) =~= Seq::<(char, Seq<Cmd>)>::empty());
        }
        None
    }
}

impl Interpreter {
    /// A copy of the table, entry for entry; the copy has the same
    /// mathematical form.
    pub fn duplicate(&self) -> (r: Interpreter)
        ensures
            r@ == self@,
    {
        let mut inner: Vec<(char, Vec<TurtleCommand>)> = Vec::new();
        for i in 0..self.inner.len()
            invariant
                inner@.len() == i,
                forall|j: int|
                    0 <= j < i ==> (#[trigger] inner@[j]).0 == self.inner@[j].0 && view_cmds(
                        inner@[j].1@,
                    ) == view_cmds(self.inner@[j].1@),
        {
            let entry = &self.inner[i];
            let cmds = clone_commands(&entry.1);
            inner.push((entry.0, cmds));
        }
        let r = Interpreter { inner };
        proof {
            assert(r@ =~= self@);
        }
        r
    }
}

/// The mathematical form of an L-system.
pub struct LSysModel {
    pub start: Seq<char>,
    pub rules: Seq<(char, Seq<char>)>,
    pub interp: Seq<(char, Seq<Cmd>)>,
}

/// The command sequence of generation `n`: the expansion, every symbol
/// mapped through the interpretation table.
pub open spec fn compile_spec(m: LSysModel, n: nat) -> Seq<Cmd> {
    interpret_syms(m.interp, expand_spec(m.start, m.rules, n))
}

/// An immutable L-system: axiom, rule table and interpretation table. Any
/// symbol set is legal; unknown symbols pass through the rules and
/// contribute no commands.
#[derive(Debug, PartialEq)]
pub struct LSystem {
    pub start: Vec<char>,
    pub rules: Rules,
    pub interpreter: Interpreter,
}

impl View for LSystem {
    type V = LSysModel;

    open spec fn view(&self) -> LSysModel {
        LSysModel {
            start: self.start@,
            rules: self.rules@,
            interp: self.interpreter@,
        }
    }
}

impl LSystem {
    /// An L-system with the given axiom, rules and interpretation. Rejects
    /// nothing: any entry set is a valid system.
    pub fn new(
        start: &str,
        rules: Vec<(char, Vec<char>)>,
        interpreter: Vec<(char, Vec<TurtleCommand>)>,
    ) -> (r: LSystem)
        ensures
            r@.start == start@,
            r@.rules == rules_view(rules@),
            r@.interp == interp_view(interpreter@),
    {
        LSystem {
            start: str_to_chars(start),
            rules: Rules::from(rules),
            interpreter: Interpreter::from(interpreter),
        }
    }

    /// One rewriting pass over `s`.
    pub fn apply_rules(&self, s: &Vec<char>) -> (r: Vec<char>)
        ensures
            r@ == apply_rules_spec(self@.rules, s@),
    {
        let ghost rv = self@.rules;
        let mut r: Vec<char> = Vec::new();
        proof {
            assert(s@.skip(0) =~= s@);
            assert(Seq::<char>::empty() + apply_rules_spec(rv, s@) =~= apply_rules_spec(rv, s@));
        }
        for i in 0..s.len()
            invariant
                apply_rules_spec(rv, s@) == r@ + apply_rules_spec(rv, s@.skip(i as int)),
                rv == self@.rules,
        {
            proof {
                assert(s@.skip(i as int)[0] == s@[i as int]);
                assert(s@.skip(i as int).drop_first() =~= s@.skip(i as int + 1));
            }
            let ghost r_pre = r@;
            let mut piece = self.rules.get_as_string(s[i]);
            r.append(&mut piece);
            proof {
                assert(r_pre + (rule_for(rv, s@[i as int]) + apply_rules_spec(
                    rv,
                    s@.skip(i as int + 1),
                )) =~= (r_pre + rule_for(rv, s@[i as int])) + apply_rules_spec(
                    rv,
                    s@.skip(i as int + 1),
                ));
            }
        }
        proof {
            assert(s@.skip(s@.len() as int) =~= Seq::<char>::empty());
            assert(r@ + Seq::<char>::empty() =~= r@);
        }
        r
    }

    /// Generation `iterations` of the system: the axiom rewritten
    /// `iterations - 1` times. Generation counts 0 and 1 both give the axiom
    /// unchanged; an empty axiom stays empty at every count.
    pub fn expand(&self, iterations: u32) -> (r: Vec<char>)
        ensures
            r@ == expand_spec(self@.start, self@.rules, iterations as nat),
    {
        let mut s = copy_chars(&self.start);
        let mut g: u32 = 1;
        while g < iterations
            invariant
                1 <= g,
                g <= iterations || g == 1,
                expand_spec(s@, self@.rules, (iterations + 1 - g) as nat) == expand_spec(
                    self@.start,
                    self@.rules,
                    iterations as nat,
                ),
            decreases iterations - g,
        {
            s = self.apply_rules(&s);
            g = g + 1;
        }
        s
    }

    /// The turtle program of generation `iterations`: the expansion, every
    /// symbol mapped through the interpretation table in order, run by the
    /// initial turtle.
    pub fn compile(&self, iterations: u32) -> (p: TurtleProgram)
        ensures
            view_cmds(p.commands@) == compile_spec(self@, iterations as nat),
            p.turtle == initial_turtle(),
    {
        let ghost iv = self@.interp;
        let s = self.expand(iterations);
        let mut commands: Vec<TurtleCommand> = Vec::new();
        proof {
            assert(s@.skip(0) =~= s@);
            assert(Seq::<Cmd>::empty() + interpret_syms(iv, s@) =~= interpret_syms(iv, s@));
        }
        for i in 0..s.len()
            invariant
                interpret_syms(iv, s@) == view_cmds(commands@) + interpret_syms(
                    iv,
                    s@.skip(i as int),
                ),
                iv == self@.interp,
        {
            proof {
                assert(s@.skip(i as int)[0] == s@[i as int]);
                assert(s@.skip(i as int).drop_first() =~= s@.skip(i as int + 1));
            }
            let ghost c_pre = commands@;
            match self.interpreter.get(&s[i]) {
                Some(v) => {
                    let mut piece = clone_commands(v);
                    let ghost piece_v = piece@;
                    commands.append(&mut piece);
                    proof {
                        crate::turtle::lemma_view_cmds_append(c_pre, piece_v);
                    }
                },
                None => {},
            }
            proof {
                assert(view_cmds(c_pre) + (cmds_for(iv, s@[i as int]) + interpret_syms(
                    iv,
                    s@.skip(i as int + 1),
                )) =~= (view_cmds(c_pre) + cmds_for(iv, s@[i as int])) + interpret_syms(
                    iv,
                    s@.skip(i as int + 1),
                ));
            }
        }
        proof {
            assert(s@.skip(s@.len() as int) =~= Seq::<char>::empty());
            assert(view_cmds(commands@) + Seq::<Cmd>::empty() =~= view_cmds(commands@));
        }
        let turtle = Turtle {
            location: 0,
            orientation: 0,
            pen: crate::turtle::Pen {
                color: crate::draw::Color { r: 255, g: 255, b: 255 },
                width: crate::num::Num::whole(2),
                state: crate::turtle::PenState::Down,
            },
        };
        TurtleProgram::new(turtle, commands)
    }
}

} // verus!
