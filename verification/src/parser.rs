//! Recursive-descent parser for the textual L-system description language.
//!
//! The grammar, with whitespace (space, tab, newline) insignificant between
//! tokens:
//!
//! ```text
//! lsystem      := "LSYSTEM" "(" axiom "," rule_list "," interp_list ")"
//! axiom        := symbol+
//! rule_list    := "(" rule ("," rule)* ")"
//! rule         := symbol "->" symbol+
//! interp_list  := "(" interp_rule ("," interp_rule)* ")"
//! interp_rule  := symbol "->" "(" command ("," command)* ")"
//! command      := "MOVE" number | "TURN" number | "PUSH" | "POP"
//!               | "PEN" "UP" | "PEN" "DOWN"
//!               | "REPEAT" positive_integer "(" command ("," command)* ")"
//! symbol       := one alphanumeric, bracket, punctuation or special character
//! number       := optional "-", digits, optional "." digits
//! ```
//!
//! Every production has a unique first-token set, so parsing is
//! deterministic, with no backtracking. The meaning of each production is a
//! specification function over the input characters; each executable parser
//! method is proved to return exactly what its specification function says,
//! and [`parse`] is proved to succeed exactly when the specification-level
//! parse does. A failed parse carries the line and column of the offending
//! position and constructs nothing.
//!
//! Two machine limits are part of the language: a number's digits must fit a
//! `u64` mantissa and a repeat count must fit a `u32`; a larger literal is a
//! parse error at the token, never a panic.

use crate::l_system::{Interpreter, LSystem, Rules};
use crate::num::Num;
use crate::turtle::{view_cmd, view_cmds, Cmd, TurtleCommand};
use vstd::prelude::*;

verus! {

broadcast use vstd::std_specs::vec::group_vec_axioms, vstd::seq::group_seq_axioms, vstd::string::group_string_axioms;

/// Whitespace: space, tab, newline, carriage return.
pub open spec fn is_ws(c: char) -> bool {
    c == ' ' || c == '\t' || c == '\n' || c == '\r'
}

pub open spec fn is_digit(c: char) -> bool {
    48 <= c as u32 <= 57
}

pub open spec fn is_alnum(c: char) -> bool {
    (48 <= c as u32 <= 57) || (65 <= c as u32 <= 90) || (97 <= c as u32 <= 122)
}

pub open spec fn is_special(c: char) -> bool {
    c == '!' || c == '@' || c == '#' || c == '$' || c == '%' || c == '^' || c == '&' || c == '*'
        || c == '-' || c == '=' || c == '+' || c == '_' || c == '~'
}

pub open spec fn is_punct(c: char) -> bool {
    c == '.' || c == ';' || c == ':' || c == '\'' || c == '`'
}

pub open spec fn is_bracket(c: char) -> bool {
    c == '[' || c == ']' || c == '{' || c == '}' || c == '<' || c == '>'
}

/// A symbol of the L-system alphabet.
pub open spec fn is_symbol_char(c: char) -> bool {
    is_alnum(c) || is_special(c) || is_punct(c) || is_bracket(c)
}

/// Length of the whitespace run starting at `p`.
pub open spec fn ws_run(s: Seq<char>, p: int) -> nat
    decreases s.len() - p,
{
    if 0 <= p < s.len() && is_ws(s[p]) {
        1 + ws_run(s, p + 1)
    } else {
        0
    }
}

/// Length of the digit run starting at `p`.
pub open spec fn digit_run(s: Seq<char>, p: int) -> nat
    decreases s.len() - p,
{
    if 0 <= p < s.len() && is_digit(s[p]) {
        1 + digit_run(s, p + 1)
    } else {
        0
    }
}

/// The numeric value of a digit character.
pub open spec fn digit_of(c: char) -> int {
    c as u32 - 48
}

/// Whether the literal `kw` stands at `p`.
pub open spec fn lit_at(s: Seq<char>, p: int, kw: Seq<char>) -> bool {
    &&& p >= 0
    &&& p + kw.len() <= s.len()
    &&& forall|i: int| 0 <= i < kw.len() ==> s[p + i] == kw[i]
}

/// `k` digits starting at `p` folded into `acc` base 10, failing where the
/// next fold would exceed `bound`.
pub open spec fn fold_digits(s: Seq<char>, p: int, k: nat, acc: int, bound: int) -> Result<
    int,
    (),
>
    decreases k,
{
    if k == 0 {
        Ok(acc)
    } else {
        let d = digit_of(s[p]);
        if acc > (bound - d) / 10 {
            Err(())
        } else {
            fold_digits(s, p + 1, (k - 1) as nat, acc * 10 + d, bound)
        }
    }
}

/// A run of symbols with insignificant whitespace in between: the symbols,
/// and how many characters — whitespace included — the run takes. The run
/// may be empty; it ends at the first character that is neither a symbol
/// nor whitespace.
pub open spec fn spec_syms(s: Seq<char>, p: int) -> (Seq<char>, nat)
    decreases s.len() - p,
{
    if 0 <= p < s.len() {
        if is_ws(s[p]) {
            let r = spec_syms(s, p + 1);
            (r.0, 1 + r.1)
        } else if is_symbol_char(s[p]) {
            let r = spec_syms(s, p + 1);
            (seq![s[p]] + r.0, 1 + r.1)
        } else {
            (Seq::empty(), 0)
        }
    } else {
        (Seq::empty(), 0)
    }
}

/// A `number` token: optional minus, digits, optionally a dot and more
/// digits, with no whitespace inside. `Ok` carries the value and the
/// characters consumed; `Err` carries the failing position. A dot without a
/// digit after it is not part of the number. A number whose digits exceed a
/// `u64` mantissa or whose fraction exceeds a `u32` scale is an error at the
/// token's start.
pub open spec fn spec_number(s: Seq<char>, p: int) -> Result<(Num, nat), int> {
    let neg = 0 <= p < s.len() && s[p] == '-';
    let q = if neg {
        p + 1
    } else {
        p
    };
    let k1 = digit_run(s, q);
    if k1 == 0 {
        Err(q)
    } else {
        let has_frac = q + k1 + 1 < s.len() && s[q + k1] == '.' && is_digit(s[q + k1 + 1]);
        let k2 = if has_frac {
            digit_run(s, q + k1 + 1)
        } else {
            0
        };
        let v1 = fold_digits(s, q, k1, 0, u64::MAX as int);
        let v = if v1 is Err {
            v1
        } else {
            fold_digits(s, q + k1 + 1, k2, v1->Ok_0, u64::MAX as int)
        };
        if v is Err || k2 > u32::MAX {
            Err(p)
        } else {
            Ok(
                (
                    Num { neg, mantissa: v->Ok_0 as u64, scale: k2 as u32 },
                    ((if neg {
                        1int
                    } else {
                        0int
                    }) + k1 + (if has_frac {
                        1 + k2
                    } else {
                        0nat
                    })) as nat,
                ),
            )
        }
    }
}

/// A `positive_integer` token: a nonzero digit then digits, fitting a
/// `u32`; a larger count is an error at the token's start.
pub open spec fn spec_posint(s: Seq<char>, p: int) -> Result<(u32, nat), int> {
    if !(0 <= p < s.len() && is_digit(s[p]) && s[p] != '0') {
        Err(p)
    } else {
        let k = digit_run(s, p);
        let v = fold_digits(s, p, k, 0, u32::MAX as int);
        match v {
            Err(_) => Err(p),
            Ok(n) => Ok((n as u32, k)),
        }
    }
}

/// The input length still ahead of `p`, the termination measure of the
/// mutually recursive productions.
pub open spec fn rem_len(s: Seq<char>, p: int) -> nat {
    if p <= s.len() {
        (s.len() - p) as nat
    } else {
        0
    }
}

/// A `command` production at `p` (no leading whitespace): the command and
/// the characters consumed, or the failing position. The keyword decides
/// the branch, so parsing is deterministic.
pub open spec fn spec_command(s: Seq<char>, p: int) -> Result<(Cmd, nat), int>
    decreases rem_len(s, p), 0nat,
{
    if lit_at(s, p, "MOVE"@) {
        let w = ws_run(s, p + 4);
        match spec_number(s, p + 4 + w) {
            Ok(vk) => Ok((Cmd::Move(vk.0), (4 + w + vk.1) as nat)),
            Err(e) => Err(e),
        }
    } else if lit_at(s, p, "TURN"@) {
        let w = ws_run(s, p + 4);
        match spec_number(s, p + 4 + w) {
            Ok(vk) => Ok((Cmd::Turn(vk.0), (4 + w + vk.1) as nat)),
            Err(e) => Err(e),
        }
    } else if lit_at(s, p, "PUSH"@) {
        Ok((Cmd::Push, 4))
    } else if lit_at(s, p, "POP"@) {
        Ok((Cmd::Pop, 3))
    } else if lit_at(s, p, "PEN"@) {
        let w = ws_run(s, p + 3);
        if lit_at(s, p + 3 + w, "UP"@) {
            Ok((Cmd::PenUp, (3 + w + 2) as nat))
        } else if lit_at(s, p + 3 + w, "DOWN"@) {
            Ok((Cmd::PenDown, (3 + w + 4) as nat))
        } else {
            Err(p + 3 + w)
        }
    } else if lit_at(s, p, "REPEAT"@) {
        let w = ws_run(s, p + 6);
        match spec_posint(s, p + 6 + w) {
            Err(e) => Err(e),
            Ok(nk) => match spec_program(s, p + 6 + w + nk.1) {
                Err(e) => Err(e),
                Ok(bk) => Ok((Cmd::Repeat(nk.0 as nat, bk.0), (6 + w + nk.1 + bk.1) as nat)),
            },
        }
    } else {
        Err(p)
    }
}

/// A comma-separated command list, one command or more, whitespace
/// insignificant. Trailing whitespace after the last command is left for
/// the closing parenthesis.
pub open spec fn spec_commands(s: Seq<char>, p: int) -> Result<(Seq<Cmd>, nat), int>
    decreases rem_len(s, p), 1nat,
{
    let w = ws_run(s, p);
    match spec_command(s, p + w) {
        Err(e) => Err(e),
        Ok(ck) => {
            let q = p + w + ck.1;
            let w2 = ws_run(s, q);
            if 0 <= q + w2 < s.len() && s[q + w2] == ',' {
                match spec_commands(s, q + w2 + 1) {
                    Err(e) => Err(e),
                    Ok(rk) => Ok((seq![ck.0] + rk.0, (w + ck.1 + w2 + 1 + rk.1) as nat)),
                }
            } else {
                Ok((seq![ck.0], (w + ck.1) as nat))
            }
        },
    }
}

/// A `turtle program`: a parenthesised, one-or-more, comma-separated
/// command list.
pub open spec fn spec_program(s: Seq<char>, p: int) -> Result<(Seq<Cmd>, nat), int>
    decreases rem_len(s, p), 2nat,
{
    let w = ws_run(s, p);
    if !(0 <= p + w < s.len() && s[p + w] == '(') {
        Err(p + w)
    } else {
        match spec_commands(s, p + w + 1) {
            Err(e) => Err(e),
            Ok(ck) => {
                let q = p + w + 1 + ck.1;
                let w2 = ws_run(s, q);
                if 0 <= q + w2 < s.len() && s[q + w2] == ')' {
                    Ok((ck.0, (w + 1 + ck.1 + w2 + 1) as nat))
                } else {
                    Err(q + w2)
                }
            },
        }
    }
}

/// A rewriting rule: one symbol, an arrow, a one-or-more symbol
/// replacement.
pub open spec fn spec_rule(s: Seq<char>, p: int) -> Result<((char, Seq<char>), nat), int> {
    let w = ws_run(s, p);
    let q = p + w;
    if !(0 <= q < s.len() && is_symbol_char(s[q])) {
        Err(q)
    } else {
        let w1 = ws_run(s, q + 1);
        let a = q + 1 + w1;
        if lit_at(s, a, "->"@) {
            let rk = spec_syms(s, a + 2);
            if rk.0.len() == 0 {
                Err(a + 2 + rk.1)
            } else {
                Ok(((s[q], rk.0), (w + 1 + w1 + 2 + rk.1) as nat))
            }
        } else {
            Err(a)
        }
    }
}

/// Further rewriting rules, each preceded by a comma.
pub open spec fn spec_rule_tail(s: Seq<char>, p: int) -> Result<
    (Seq<(char, Seq<char>)>, nat),
    int,
>
    decreases rem_len(s, p),
{
    let w = ws_run(s, p);
    if 0 <= p + w < s.len() && s[p + w] == ',' {
        match spec_rule(s, p + w + 1) {
            Err(e) => Err(e),
            Ok(rk) => match spec_rule_tail(s, p + w + 1 + rk.1) {
                Err(e) => Err(e),
                Ok(tk) => Ok((seq![rk.0] + tk.0, (w + 1 + rk.1 + tk.1) as nat)),
            },
        }
    } else {
        Ok((Seq::empty(), 0))
    }
}

/// A `rule_list`: a parenthesised, one-or-more, comma-separated rule list.
pub open spec fn spec_rules(s: Seq<char>, p: int) -> Result<(Seq<(char, Seq<char>)>, nat), int> {
    let w = ws_run(s, p);
    if !(0 <= p + w < s.len() && s[p + w] == '(') {
        Err(p + w)
    } else {
        match spec_rule(s, p + w + 1) {
            Err(e) => Err(e),
            Ok(rk) => match spec_rule_tail(s, p + w + 1 + rk.1) {
                Err(e) => Err(e),
                Ok(tk) => {
                    let q = p + w + 1 + rk.1 + tk.1;
                    let w2 = ws_run(s, q);
                    if 0 <= q + w2 < s.len() && s[q + w2] == ')' {
                        Ok((seq![rk.0] + tk.0, (w + 1 + rk.1 + tk.1 + w2 + 1) as nat))
                    } else {
                        Err(q + w2)
                    }
                },
            },
        }
    }
}

/// An interpretation rule: one symbol, an arrow, a turtle program.
pub open spec fn spec_interp_rule(s: Seq<char>, p: int) -> Result<((char, Seq<Cmd>), nat), int> {
    let w = ws_run(s, p);
    let q = p + w;
    if !(0 <= q < s.len() && is_symbol_char(s[q])) {
        Err(q)
    } else {
        let w1 = ws_run(s, q + 1);
        let a = q + 1 + w1;
        if lit_at(s, a, "->"@) {
            match spec_program(s, a + 2) {
                Err(e) => Err(e),
                Ok(pk) => Ok(((s[q], pk.0), (w + 1 + w1 + 2 + pk.1) as nat)),
            }
        } else {
            Err(a)
        }
    }
}

/// Further interpretation rules, each preceded by a comma.
pub open spec fn spec_interp_tail(s: Seq<char>, p: int) -> Result<
    (Seq<(char, Seq<Cmd>)>, nat),
    int,
>
    decreases rem_len(s, p),
{
    let w = ws_run(s, p);
    if 0 <= p + w < s.len() && s[p + w] == ',' {
        match spec_interp_rule(s, p + w + 1) {
            Err(e) => Err(e),
            Ok(rk) => match spec_interp_tail(s, p + w + 1 + rk.1) {
                Err(e) => Err(e),
                Ok(tk) => Ok((seq![rk.0] + tk.0, (w + 1 + rk.1 + tk.1) as nat)),
            },
        }
    } else {
        Ok((Seq::empty(), 0))
    }
}

/// An `interp_list`: a parenthesised, one-or-more, comma-separated
/// interpretation rule list.
pub open spec fn spec_interps(s: Seq<char>, p: int) -> Result<(Seq<(char, Seq<Cmd>)>, nat), int> {
    let w = ws_run(s, p);
    if !(0 <= p + w < s.len() && s[p + w] == '(') {
        Err(p + w)
    } else {
        match spec_interp_rule(s, p + w + 1) {
            Err(e) => Err(e),
            Ok(rk) => match spec_interp_tail(s, p + w + 1 + rk.1) {
                Err(e) => Err(e),
                Ok(tk) => {
                    let q = p + w + 1 + rk.1 + tk.1;
                    let w2 = ws_run(s, q);
                    if 0 <= q + w2 < s.len() && s[q + w2] == ')' {
                        Ok((seq![rk.0] + tk.0, (w + 1 + rk.1 + tk.1 + w2 + 1) as nat))
                    } else {
                        Err(q + w2)
                    }
                },
            },
        }
    }
}

/// A whole description: the `LSYSTEM` header, the axiom, the rule list and
/// the interpretation list, then the end of the input. `Ok` carries the
/// axiom, the rules and the interpretation rules in source order.
pub open spec fn spec_lsystem(s: Seq<char>) -> Result<
    (Seq<char>, Seq<(char, Seq<char>)>, Seq<(char, Seq<Cmd>)>),
    int,
> {
    let w0 = ws_run(s, 0) as int;
    if !lit_at(s, w0, "LSYSTEM"@) {
        Err(w0)
    } else {
        let w1 = ws_run(s, w0 + 7) as int;
        let p1 = w0 + 7 + w1;
        if !(p1 < s.len() && s[p1] == '(') {
            Err(p1)
        } else {
            let ax = spec_syms(s, p1 + 1);
            if ax.0.len() == 0 {
                Err(p1 + 1 + ax.1 as int)
            } else {
                let p2 = p1 + 1 + ax.1 as int;
                if !(p2 < s.len() && s[p2] == ',') {
                    Err(p2)
                } else {
                    match spec_rules(s, p2 + 1) {
                        Err(e) => Err(e),
                        Ok(rk) => {
                            let p3 = p2 + 1 + rk.1 as int;
                            let w2 = ws_run(s, p3) as int;
                            if !(p3 + w2 < s.len() && s[p3 + w2] == ',') {
                                Err(p3 + w2)
                            } else {
                                match spec_interps(s, p3 + w2 + 1) {
                                    Err(e) => Err(e),
                                    Ok(ik) => {
                                        let p4 = p3 + w2 + 1 + ik.1 as int;
                                        let w3 = ws_run(s, p4) as int;
                                        if !(p4 + w3 < s.len() && s[p4 + w3] == ')') {
                                            Err(p4 + w3)
                                        } else {
                                            let p5 = p4 + w3 + 1;
                                            let w4 = ws_run(s, p5) as int;
                                            if p5 + w4 == s.len() {
                                                Ok((ax.0, rk.0, ik.0))
                                            } else {
                                                Err(p5 + w4)
                                            }
                                        }
                                    },
                                }
                            }
                        },
                    }
                }
            }
        }
    }
}

/// The position's 1-based line and column.
pub open spec fn line_col(s: Seq<char>, p: int) -> (int, int)
    decreases p,
{
    if p <= 0 {
        (1, 1)
    } else {
        let r = line_col(s, p - 1);
        if 0 <= p - 1 < s.len() && s[p - 1] == '\n' {
            (if r.0 < usize::MAX {
                r.0 + 1
            } else {
                r.0
            }, 1)
        } else {
            (r.0, if r.1 < usize::MAX {
                r.1 + 1
            } else {
                r.1
            })
        }
    }
}

/// Where a parse failed, as a 1-based line and column.
#[derive(Clone, Copy, Debug, PartialEq, Eq, Structural)]
pub struct ParseError {
    pub line: usize,
    pub col: usize,
}

/// The recursive-descent parser: the input characters and the cursor.
pub struct LSystemParser {
    pub input: Vec<char>,
    pub pos: usize,
}

impl LSystemParser {
    /// The cursor never leaves the input.
    pub open spec fn wf(self) -> bool {
        self.pos <= self.input@.len()
    }

    fn is_ws_at(&self, i: usize) -> (b: bool)
        requires
            i < self.input@.len(),
        ensures
            b == is_ws(self.input@[i as int]),
    {
        let c = self.input[i];
        c == ' ' || c == '\t' || c == '\n' || c == '\r'
    }

    fn is_symbol_at(&self, i: usize) -> (b: bool)
        requires
            i < self.input@.len(),
        ensures
            b == is_symbol_char(self.input@[i as int]),
    {
        let c = self.input[i];
        let u = c as u32;
        (48 <= u && u <= 57) || (65 <= u && u <= 90) || (97 <= u && u <= 122) || c == '!' || c
            == '@' || c == '#' || c == '$' || c == '%' || c == '^' || c == '&' || c == '*' || c
            == '-' || c == '=' || c == '+' || c == '_' || c == '~' || c == '.' || c == ';' || c
            == ':' || c == '\'' || c == '`' || c == '[' || c == ']' || c == '{' || c == '}' || c
            == '<' || c == '>'
    }

    /// Advances the cursor past the whitespace run.
    #[verifier::loop_isolation(false)]
    fn skip_ws(&mut self)
        requires
            old(self).wf(),
        ensures
            final(self).wf(),
            final(self).input@ == old(self).input@,
            final(self).pos == old(self).pos + ws_run(old(self).input@, old(self).pos as int),
    {
        let ghost p0 = self.pos as int;
        let ghost s = self.input@;
        while self.pos < self.input.len() && self.is_ws_at(self.pos)
            invariant
                self.input@ == s,
                p0 <= self.pos <= s.len(),
                ws_run(s, p0) == self.pos - p0 + ws_run(s, self.pos as int),
            decreases s.len() - self.pos,
        {
            self.pos = self.pos + 1;
        }
    }

    /// Whether the literal `kw` stands at the cursor.
    #[verifier::loop_isolation(false)]
    fn lit(&self, kw: &str) -> (b: bool)
        requires
            self.wf(),
        ensures
            b == lit_at(self.input@, self.pos as int, kw@),
            self.input@.len() <= usize::MAX,
    {
        let n = kw.unicode_len();
        if self.input.len() - self.pos < n {
            return false;
        }
        for i in 0..n
            invariant
                n == kw@.len(),
                self.pos + n <= self.input@.len(),
                forall|j: int| 0 <= j < i ==> self.input@[self.pos + j] == kw@[j],
        {
            if self.input[self.pos + i] != kw.get_char(i) {
                return false;
            }
        }
        true
    }

    fn is_digit_at(&self, i: usize) -> (b: bool)
        requires
            i < self.input@.len(),
        ensures
            b == is_digit(self.input@[i as int]),
    {
        let u = self.input[i] as u32;
        48 <= u && u <= 57
    }

    /// Length of the digit run at `from`.
    #[verifier::loop_isolation(false)]
    fn digit_run_len(&self, from: usize) -> (k: usize)
        requires
            self.wf(),
            from <= self.input@.len(),
        ensures
            k == digit_run(self.input@, from as int),
            from + k <= self.input@.len(),
            forall|j: int| from <= j < from + k ==> is_digit(self.input@[j]),
    {
        let ghost s = self.input@;
        let mut i = from;
        while i < self.input.len() && self.is_digit_at(i)
            invariant
                from <= i <= s.len(),
                digit_run(s, from as int) == i - from + digit_run(s, i as int),
                forall|j: int| from <= j < i ==> is_digit(s[j]),
            decreases s.len() - i,
        {
            i = i + 1;
        }
        i - from
    }

    /// Folds `k` digit characters at `from` into `acc0` base 10, failing
    /// where the value would exceed `bound`.
    #[verifier::loop_isolation(false)]
    fn fold_digits_bounded(&self, from: usize, k: usize, acc0: u64, bound: u64) -> (r: Result<
        u64,
        (),
    >)
        requires
            self.wf(),
            from + k <= self.input@.len(),
            forall|j: int| from <= j < from + k ==> is_digit(self.input@[j]),
            acc0 <= bound,
            bound >= 9,
        ensures
            match fold_digits(self.input@, from as int, k as nat, acc0 as int, bound as int) {
                Ok(v) => r matches Ok(a) && a as int == v && v <= bound,
                Err(_) => r is Err,
            },
    {
        let ghost s = self.input@;
        let ghost full = fold_digits(s, from as int, k as nat, acc0 as int, bound as int);
        let n = self.input.len();
        let mut acc = acc0;
        let mut j: usize = 0;
        while j < k
            invariant
                j <= k,
                from + k <= n,
                n == s.len(),
                forall|jj: int| from <= jj < from + k ==> is_digit(s[jj]),
                acc <= bound,
                bound >= 9,
                full == fold_digits(s, from + j, (k - j) as nat, acc as int, bound as int),
            decreases k - j,
        {
            let c = self.input[from + j];
            let d: u64 = (c as u32 - 48) as u64;
            assert(d <= 9);
            if acc > (bound - d) / 10 {
                return Err(());
            }
            assert(acc * 10 + d <= bound) by {
                assert(acc <= (bound - d) / 10);
                assert(((bound - d) / 10) * 10 <= bound - d) by {
                    assert((bound - d) / 10 * 10 + (bound - d) % 10 == bound - d);
                }
            }
            acc = acc * 10 + d;
            j = j + 1;
        }
        Ok(acc)
    }

    /// A `number` token at the cursor, as [`spec_number`] reads it; on an
    /// error the cursor is left where the failure is reported.
    fn number(&mut self) -> (r: Result<Num, usize>)
        requires
            old(self).wf(),
        ensures
            final(self).wf(),
            final(self).input@ == old(self).input@,
            match spec_number(old(self).input@, old(self).pos as int) {
                Ok(vk) => r matches Ok(v) && v == vk.0 && final(self).pos == old(self).pos + vk.1,
                Err(e) => r matches Err(ep) && ep as int == e,
            },
    {
        let p = self.pos;
        let neg = p < self.input.len() && self.input[p] == '-';
        let q = if neg {
            p + 1
        } else {
            p
        };
        let k1 = self.digit_run_len(q);
        if k1 == 0 {
            return Err(q);
        }
        let dot = q + k1;
        let has_frac = dot < self.input.len() && self.input[dot] == '.' && dot + 1
            < self.input.len() && self.is_digit_at(dot + 1);
        let k2 = if has_frac {
            self.digit_run_len(dot + 1)
        } else {
            0
        };
        let v1 = match self.fold_digits_bounded(q, k1, 0, u64::MAX) {
            Err(_) => {
                return Err(p);
            },
            Ok(v1) => v1,
        };
        let m = if has_frac {
            match self.fold_digits_bounded(dot + 1, k2, v1, u64::MAX) {
                Err(_) => {
                    return Err(p);
                },
                Ok(m) => m,
            }
        } else {
            proof {
                assert(fold_digits(
                    self.input@,
                    dot + 1,
                    0nat,
                    v1 as int,
                    u64::MAX as int,
                ) == Ok::<int, ()>(v1 as int));
            }
            v1
        };
        if k2 > u32::MAX as usize {
            return Err(p);
        }
        self.pos = if has_frac {
            dot + 1 + k2
        } else {
            dot
        };
        Ok(Num { neg, mantissa: m, scale: k2 as u32 })
    }

    /// A `positive_integer` token at the cursor, as [`spec_posint`] reads
    /// it.
    fn posint(&mut self) -> (r: Result<u32, usize>)
        requires
            old(self).wf(),
        ensures
            final(self).wf(),
            final(self).input@ == old(self).input@,
            match spec_posint(old(self).input@, old(self).pos as int) {
                Ok(vk) => r matches Ok(v) && v == vk.0 && final(self).pos == old(self).pos + vk.1,
                Err(e) => r matches Err(ep) && ep as int == e,
            },
    {
        let p = self.pos;
        if !(p < self.input.len() && self.is_digit_at(p) && self.input[p] != '0') {
            return Err(p);
        }
        let k = self.digit_run_len(p);
        match self.fold_digits_bounded(p, k, 0, u32::MAX as u64) {
            Err(_) => Err(p),
            Ok(n) => {
                self.pos = p + k;
                Ok(n as u32)
            },
        }
    }

    /// Consumes one character `c` at the cursor, if it stands there.
    fn eat(&mut self, c: char) -> (b: bool)
        requires
            old(self).wf(),
        ensures
            final(self).wf(),
            final(self).input@ == old(self).input@,
            b == (old(self).pos < old(self).input@.len() && old(self).input@[old(
                self,
            ).pos as int] == c),
            b ==> final(self).pos == old(self).pos + 1,
            !b ==> final(self).pos == old(self).pos,
    {
        if self.pos < self.input.len() && self.input[self.pos] == c {
            self.pos = self.pos + 1;
            true
        } else {
            false
        }
    }

    /// A `command` production at the cursor, as [`spec_command`] reads it.
    fn command(&mut self) -> (r: Result<TurtleCommand, usize>)
        requires
            old(self).wf(),
        ensures
            final(self).wf(),
            final(self).input@ == old(self).input@,
            match spec_command(old(self).input@, old(self).pos as int) {
                Ok(ck) => r matches Ok(c) && view_cmd(c) == ck.0 && final(self).pos == old(
                    self,
                ).pos + ck.1,
                Err(e) => r matches Err(ep) && ep as int == e,
            },
        decreases rem_len(old(self).input@, old(self).pos as int), 0nat,
    {
        if self.lit("MOVE") {
            proof {
                reveal_strlit("MOVE");
            }
            self.pos = self.pos + 4;
            self.skip_ws();
            match self.number() {
                Ok(v) => Ok(TurtleCommand::Move(v)),
                Err(e) => Err(e),
            }
        } else if self.lit("TURN") {
            proof {
                reveal_strlit("TURN");
            }
            self.pos = self.pos + 4;
            self.skip_ws();
            match self.number() {
                Ok(v) => Ok(TurtleCommand::Turn(v)),
                Err(e) => Err(e),
            }
        } else if self.lit("PUSH") {
            proof {
                reveal_strlit("PUSH");
            }
            self.pos = self.pos + 4;
            Ok(TurtleCommand::Push)
        } else if self.lit("POP") {
            proof {
                reveal_strlit("POP");
            }
            self.pos = self.pos + 3;
            Ok(TurtleCommand::Pop)
        } else if self.lit("PEN") {
            proof {
                reveal_strlit("PEN");
            }
            self.pos = self.pos + 3;
            self.skip_ws();
            if self.lit("UP") {
                proof {
                    reveal_strlit("UP");
                }
                self.pos = self.pos + 2;
                Ok(TurtleCommand::PenUp)
            } else if self.lit("DOWN") {
                proof {
                    reveal_strlit("DOWN");
                }
                self.pos = self.pos + 4;
                Ok(TurtleCommand::PenDown)
            } else {
                Err(self.pos)
            }
        } else if self.lit("REPEAT") {
            proof {
                reveal_strlit("REPEAT");
            }
            self.pos = self.pos + 6;
            self.skip_ws();
            match self.posint() {
                Err(e) => Err(e),
                Ok(n) => match self.program() {
                    Err(e) => Err(e),
                    Ok(body) => Ok(TurtleCommand::Repeat(n, body)),
                },
            }
        } else {
            Err(self.pos)
        }
    }

    /// A comma-separated command list at the cursor, as [`spec_commands`]
    /// reads it.
    fn commands(&mut self) -> (r: Result<Vec<TurtleCommand>, usize>)
        requires
            old(self).wf(),
        ensures
            final(self).wf(),
            final(self).input@ == old(self).input@,
            match spec_commands(old(self).input@, old(self).pos as int) {
                Ok(ck) => r matches Ok(cs) && view_cmds(cs@) == ck.0 && final(self).pos == old(
                    self,
                ).pos + ck.1,
                Err(e) => r matches Err(ep) && ep as int == e,
            },
        decreases rem_len(old(self).input@, old(self).pos as int), 1nat,
    {
        self.skip_ws();
        let first = match self.command() {
            Err(e) => {
                return Err(e);
            },
            Ok(c) => c,
        };
        let q = self.pos;
        self.skip_ws();
        if self.pos < self.input.len() && self.input[self.pos] == ',' {
            self.pos = self.pos + 1;
            match self.commands() {
                Err(e) => Err(e),
                Ok(rest) => {
                    let ghost first_v = first;
                    let ghost rest_v = rest@;
                    let mut out: Vec<TurtleCommand> = Vec::new();
                    out.push(first);
                    let mut rest = rest;
                    out.append(&mut rest);
                    proof {
                        assert(out@ =~= seq![first_v] + rest_v);
                        crate::turtle::lemma_view_cmds_append(seq![first_v], rest_v);
                        let single = seq![first_v];
                        assert(single[0] == first_v);
                        assert(single.drop_first() =~= Seq::<TurtleCommand>::empty());
                        assert(view_cmds(single.drop_first()) == Seq::<Cmd>::empty());
                        assert(view_cmds(single) == seq![view_cmd(first_v)] + Seq::<Cmd>::empty());
                        assert(seq![view_cmd(first_v)] + Seq::<Cmd>::empty() =~= seq![view_cmd(
                            first_v,
                        )]);
                    }
                    Ok(out)
                },
            }
        } else {
            self.pos = q;
            let ghost first_v = first;
            let mut out: Vec<TurtleCommand> = Vec::new();
            out.push(first);
            proof {
                assert(out@ =~= seq![first_v]);
                let single = seq![first_v];
                assert(single[0] == first_v);
                assert(single.drop_first() =~= Seq::<TurtleCommand>::empty());
                assert(view_cmds(single.drop_first()) == Seq::<Cmd>::empty());
                assert(view_cmds(single) == seq![view_cmd(first_v)] + Seq::<Cmd>::empty());
                assert(seq![view_cmd(first_v)] + Seq::<Cmd>::empty() =~= seq![view_cmd(first_v)]);
            }
            Ok(out)
        }
    }

    /// A parenthesised command list at the cursor, as [`spec_program`]
    /// reads it.
    fn program(&mut self) -> (r: Result<Vec<TurtleCommand>, usize>)
        requires
            old(self).wf(),
        ensures
            final(self).wf(),
            final(self).input@ == old(self).input@,
            match spec_program(old(self).input@, old(self).pos as int) {
                Ok(ck) => r matches Ok(cs) && view_cmds(cs@) == ck.0 && final(self).pos == old(
                    self,
                ).pos + ck.1,
                Err(e) => r matches Err(ep) && ep as int == e,
            },
        decreases rem_len(old(self).input@, old(self).pos as int), 2nat,
    {
        self.skip_ws();
        if !self.eat('(') {
            return Err(self.pos);
        }
        let cs = match self.commands() {
            Err(e) => {
                return Err(e);
            },
            Ok(cs) => cs,
        };
        self.skip_ws();
        if !self.eat(')') {
            return Err(self.pos);
        }
        Ok(cs)
    }

    /// Consumes a run of symbols with insignificant whitespace in between.
    #[verifier::loop_isolation(false)]
    fn symbols(&mut self) -> (r: Vec<char>)
        requires
            old(self).wf(),
        ensures
            final(self).wf(),
            final(self).input@ == old(self).input@,
            ({
                let sp = spec_syms(old(self).input@, old(self).pos as int);
                r@ == sp.0 && final(self).pos == old(self).pos + sp.1
            }),
    {
        let ghost s = self.input@;
        let ghost p0 = self.pos as int;
        let mut r: Vec<char> = Vec::new();
        proof {
            assert(r@ + spec_syms(s, p0).0 =~= spec_syms(s, p0).0);
        }
        loop
            invariant
                self.wf(),
                self.input@ == s,
                p0 <= self.pos,
                ({
                    let fut = spec_syms(s, self.pos as int);
                    spec_syms(s, p0).0 == r@ + fut.0 && spec_syms(s, p0).1 == self.pos - p0 + fut.1
                }),
            decreases s.len() - self.pos,
        {
            if self.pos >= self.input.len() {
                proof {
                    assert(r@ + Seq::<char>::empty() =~= r@);
                }
                return r;
            }
            if self.is_ws_at(self.pos) {
                self.pos = self.pos + 1;
            } else if self.is_symbol_at(self.pos) {
                let ghost r0 = r@;
                let ghost c = s[self.pos as int];
                r.push(self.input[self.pos]);
                self.pos = self.pos + 1;
                proof {
                    assert(r0 + (seq![c] + spec_syms(s, self.pos as int).0) =~= (r0.push(c))
                        + spec_syms(s, self.pos as int).0);
                }
            } else {
                proof {
                    assert(r@ + Seq::<char>::empty() =~= r@);
                }
                return r;
            }
        }
    }

    /// A rewriting rule at the cursor, as [`spec_rule`] reads it.
    fn rule(&mut self) -> (r: Result<(char, Vec<char>), usize>)
        requires
            old(self).wf(),
        ensures
            final(self).wf(),
            final(self).input@ == old(self).input@,
            match spec_rule(old(self).input@, old(self).pos as int) {
                Ok(rk) => r matches Ok(rule) && rule.0 == rk.0.0 && rule.1@ == rk.0.1 && final(self).pos == old(self).pos + rk.1,
                Err(e) => r matches Err(ep) && ep as int == e,
            },
    {
        self.skip_ws();
        if !(self.pos < self.input.len() && self.is_symbol_at(self.pos)) {
            return Err(self.pos);
        }
        let sym = self.input[self.pos];
        self.pos = self.pos + 1;
        self.skip_ws();
        if !self.lit("->") {
            return Err(self.pos);
        }
        proof {
            reveal_strlit("->");
        }
        self.pos = self.pos + 2;
        let rhs = self.symbols();
        if rhs.len() == 0 {
            return Err(self.pos);
        }
        Ok((sym, rhs))
    }

    /// Further comma-led rewriting rules at the cursor, as
    /// [`spec_rule_tail`] reads them.
    fn rule_tail(&mut self) -> (r: Result<Vec<(char, Vec<char>)>, usize>)
        requires
            old(self).wf(),
        ensures
            final(self).wf(),
            final(self).input@ == old(self).input@,
            match spec_rule_tail(old(self).input@, old(self).pos as int) {
                Ok(tk) => r matches Ok(rs) && crate::l_system::rules_view(rs@) == tk.0 && final(self).pos == old(self).pos + tk.1,
                Err(e) => r matches Err(ep) && ep as int == e,
            },
        decreases rem_len(old(self).input@, old(self).pos as int),
    {
        let q = self.pos;
        self.skip_ws();
        if !(self.pos < self.input.len() && self.input[self.pos] == ',') {
            self.pos = q;
            let r: Vec<(char, Vec<char>)> = Vec::new();
            proof {
                assert(crate::l_system::rules_view(r@) =~= Seq::<(char, Seq<char>)>::empty());
            }
            return Ok(r);
        }
        self.pos = self.pos + 1;
        let first = match self.rule() {
            Err(e) => {
                return Err(e);
            },
            Ok(rule) => rule,
        };
        match self.rule_tail() {
            Err(e) => Err(e),
            Ok(rest) => {
                let ghost first_v = (first.0, first.1@);
                let ghost rest_v = rest@;
                let mut out: Vec<(char, Vec<char>)> = Vec::new();
                out.push(first);
                let mut rest = rest;
                out.append(&mut rest);
                proof {
                    assert(crate::l_system::rules_view(out@) =~= seq![first_v]
                        + crate::l_system::rules_view(rest_v));
                }
                Ok(out)
            },
        }
    }

    /// A `rule_list` at the cursor, as [`spec_rules`] reads it.
    fn rules(&mut self) -> (r: Result<Vec<(char, Vec<char>)>, usize>)
        requires
            old(self).wf(),
        ensures
            final(self).wf(),
            final(self).input@ == old(self).input@,
            match spec_rules(old(self).input@, old(self).pos as int) {
                Ok(rk) => r matches Ok(rs) && crate::l_system::rules_view(rs@) == rk.0 && final(self).pos == old(self).pos + rk.1,
                Err(e) => r matches Err(ep) && ep as int == e,
            },
    {
        self.skip_ws();
        if !self.eat('(') {
            return Err(self.pos);
        }
        let first = match self.rule() {
            Err(e) => {
                return Err(e);
            },
            Ok(rule) => rule,
        };
        let rest = match self.rule_tail() {
            Err(e) => {
                return Err(e);
            },
            Ok(rest) => rest,
        };
        self.skip_ws();
        if !self.eat(')') {
            return Err(self.pos);
        }
        let ghost first_v = (first.0, first.1@);
        let ghost rest_v = rest@;
        let mut out: Vec<(char, Vec<char>)> = Vec::new();
        out.push(first);
        let mut rest = rest;
        out.append(&mut rest);
        proof {
            assert(crate::l_system::rules_view(out@) =~= seq![first_v]
                + crate::l_system::rules_view(rest_v));
        }
        Ok(out)
    }

    /// An interpretation rule at the cursor, as [`spec_interp_rule`] reads
    /// it.
    fn interp_rule(&mut self) -> (r: Result<(char, Vec<TurtleCommand>), usize>)
        requires
            old(self).wf(),
        ensures
            final(self).wf(),
            final(self).input@ == old(self).input@,
            match spec_interp_rule(old(self).input@, old(self).pos as int) {
                Ok(rk) => r matches Ok(rule) && rule.0 == rk.0.0 && view_cmds(rule.1@) == rk.0.1
                    && final(self).pos == old(self).pos + rk.1,
                Err(e) => r matches Err(ep) && ep as int == e,
            },
    {
        self.skip_ws();
        if !(self.pos < self.input.len() && self.is_symbol_at(self.pos)) {
            return Err(self.pos);
        }
        let sym = self.input[self.pos];
        self.pos = self.pos + 1;
        self.skip_ws();
        if !self.lit("->") {
            return Err(self.pos);
        }
        proof {
            reveal_strlit("->");
        }
        self.pos = self.pos + 2;
        match self.program() {
            Err(e) => Err(e),
            Ok(prog) => Ok((sym, prog)),
        }
    }

    /// Further comma-led interpretation rules at the cursor, as
    /// [`spec_interp_tail`] reads them.
    fn interp_tail(&mut self) -> (r: Result<Vec<(char, Vec<TurtleCommand>)>, usize>)
        requires
            old(self).wf(),
        ensures
            final(self).wf(),
            final(self).input@ == old(self).input@,
            match spec_interp_tail(old(self).input@, old(self).pos as int) {
                Ok(tk) => r matches Ok(rs) && crate::l_system::interp_view(rs@) == tk.0 && final(self).pos == old(self).pos + tk.1,
                Err(e) => r matches Err(ep) && ep as int == e,
            },
        decreases rem_len(old(self).input@, old(self).pos as int),
    {
        let q = self.pos;
        self.skip_ws();
        if !(self.pos < self.input.len() && self.input[self.pos] == ',') {
            self.pos = q;
            let r: Vec<(char, Vec<TurtleCommand>)> = Vec::new();
            proof {
                assert(crate::l_system::interp_view(r@) =~= Seq::<(char, Seq<Cmd>)>::empty());
            }
            return Ok(r);
        }
        self.pos = self.pos + 1;
        let first = match self.interp_rule() {
            Err(e) => {
                return Err(e);
            },
            Ok(rule) => rule,
        };
        match self.interp_tail() {
            Err(e) => Err(e),
            Ok(rest) => {
                let ghost first_v = (first.0, view_cmds(first.1@));
                let ghost rest_v = rest@;
                let mut out: Vec<(char, Vec<TurtleCommand>)> = Vec::new();
                out.push(first);
                let mut rest = rest;
                out.append(&mut rest);
                proof {
                    assert(crate::l_system::interp_view(out@) =~= seq![first_v]
                        + crate::l_system::interp_view(rest_v));
                }
                Ok(out)
            },
        }
    }

    /// An `interp_list` at the cursor, as [`spec_interps`] reads it.
    fn interps(&mut self) -> (r: Result<Vec<(char, Vec<TurtleCommand>)>, usize>)
        requires
            old(self).wf(),
        ensures
            final(self).wf(),
            final(self).input@ == old(self).input@,
            match spec_interps(old(self).input@, old(self).pos as int) {
                Ok(rk) => r matches Ok(rs) && crate::l_system::interp_view(rs@) == rk.0 && final(self).pos == old(self).pos + rk.1,
                Err(e) => r matches Err(ep) && ep as int == e,
            },
    {
        self.skip_ws();
        if !self.eat('(') {
            return Err(self.pos);
        }
        let first = match self.interp_rule() {
            Err(e) => {
                return Err(e);
            },
            Ok(rule) => rule,
        };
        let rest = match self.interp_tail() {
            Err(e) => {
                return Err(e);
            },
            Ok(rest) => rest,
        };
        self.skip_ws();
        if !self.eat(')') {
            return Err(self.pos);
        }
        let ghost first_v = (first.0, view_cmds(first.1@));
        let ghost rest_v = rest@;
        let mut out: Vec<(char, Vec<TurtleCommand>)> = Vec::new();
        out.push(first);
        let mut rest = rest;
        out.append(&mut rest);
        proof {
            assert(crate::l_system::interp_view(out@) =~= seq![first_v]
                + crate::l_system::interp_view(rest_v));
        }
        Ok(out)
    }

    /// A whole description, as [`spec_lsystem`] reads it: the axiom, the
    /// rules and the interpretation rules in source order.
    fn lsystem(&mut self) -> (r: Result<
        (Vec<char>, Vec<(char, Vec<char>)>, Vec<(char, Vec<TurtleCommand>)>),
        usize,
    >)
        requires
            old(self).wf(),
            old(self).pos == 0,
        ensures
            final(self).input@ == old(self).input@,
            match spec_lsystem(old(self).input@) {
                Ok(m) => r matches Ok(parts) && parts.0@ == m.0 && crate::l_system::rules_view(
                    parts.1@,
                ) == m.1 && crate::l_system::interp_view(parts.2@) == m.2,
                Err(e) => r matches Err(ep) && ep as int == e,
            },
    {
        self.skip_ws();
        if !self.lit("LSYSTEM") {
            return Err(self.pos);
        }
        proof {
            reveal_strlit("LSYSTEM");
        }
        self.pos = self.pos + 7;
        self.skip_ws();
        if !self.eat('(') {
            return Err(self.pos);
        }
        let ax = self.symbols();
        if ax.len() == 0 {
            return Err(self.pos);
        }
        if !self.eat(',') {
            return Err(self.pos);
        }
        let rl = match self.rules() {
            Err(e) => {
                return Err(e);
            },
            Ok(rl) => rl,
        };
        self.skip_ws();
        if !self.eat(',') {
            return Err(self.pos);
        }
        let il = match self.interps() {
            Err(e) => {
                return Err(e);
            },
            Ok(il) => il,
        };
        self.skip_ws();
        if !self.eat(')') {
            return Err(self.pos);
        }
        self.skip_ws();
        if self.pos != self.input.len() {
            return Err(self.pos);
        }
        Ok((ax, rl, il))
    }

    /// The 1-based line and column of position `e`.
    #[verifier::loop_isolation(false)]
    fn line_col_at(&self, e: usize) -> (r: (usize, usize))
        ensures
            r.0 as int == line_col(self.input@, e as int).0,
            r.1 as int == line_col(self.input@, e as int).1,
    {
        let ghost s = self.input@;
        let mut line: usize = 1;
        let mut col: usize = 1;
        let mut i: usize = 0;
        while i < e
            invariant
                i <= e,
                line as int == line_col(s, i as int).0,
                col as int == line_col(s, i as int).1,
            decreases e - i,
        {
            if i < self.input.len() && self.input[i] == '\n' {
                line = if line < usize::MAX {
                    line + 1
                } else {
                    line
                };
                col = 1;
            } else {
                col = if col < usize::MAX {
                    col + 1
                } else {
                    col
                };
            }
            i = i + 1;
        }
        (line, col)
    }
}

/// Parses a textual L-system description. On success the returned system's
/// axiom, rules and interpretation are exactly what [`spec_lsystem`] reads
/// out of the text; on failure nothing is constructed and the error carries
/// the line and column of the offending position.
pub fn parse(input: &str) -> (r: Result<LSystem, ParseError>)
    ensures
        match spec_lsystem(input@) {
            Ok(m) => r matches Ok(sys) && sys@.start == m.0 && sys@.rules == m.1 && sys@.interp
                == m.2,
            Err(e) => r matches Err(pe) && pe.line as int == line_col(input@, e).0
                && pe.col as int == line_col(input@, e).1,
        },
{
    let mut parser = LSystemParser { input: crate::l_system::str_to_chars(input), pos: 0 };
    match parser.lsystem() {
        Ok(parts) => {
            let (ax, rl, il) = parts;
            Ok(LSystem { start: ax, rules: Rules::from(rl), interpreter: Interpreter::from(il) })
        },
        Err(e) => {
            let lc = parser.line_col_at(e);
            Err(ParseError { line: lc.0, col: lc.1 })
        },
    }
}

} // verus!
