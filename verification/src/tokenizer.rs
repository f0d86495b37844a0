//! The line tokenizer: a five-mode state machine that splits a raw command
//! line into a command name and its arguments, honoring single quotes, double
//! quotes, backslash escapes, and `$name` variable expansion inside double
//! quotes.
//!
//! The machine is specified by the spec functions [`step`] and [`run`], which
//! process one character and a whole sequence respectively; the executable
//! [`tokenize`] and [`parse_cli`] are proved to agree with them exactly.
//! Environment variables are read from an injected [`Env`] value, never from
//! process-global state, so every behavior is a function of plain inputs.

use vstd::prelude::*;
use crate::text::trim;
use crate::text::trimmed;
use crate::text::views_of;
use crate::text::lemma_views_of_push;

verus! {

/// The interpretation rule set applied to the character under the cursor.
#[derive(Clone, Copy)]
pub enum Mode {
    /// Outside any quote: spaces separate arguments.
    Bare,
    /// Between single quotes: every character but `'` is literal.
    SingleQuoted,
    /// Between double quotes: `\` escapes and `$` expands.
    DoubleQuoted,
    /// Immediately after a backslash; one character is consumed.
    Escaping,
    /// After `$` inside double quotes; an identifier is being collected.
    ExpandingVariable,
}

/// The whole tokenizer state at one position of the input: the active mode,
/// the mode to resume after an escape or expansion, the argument accumulator,
/// the variable-name accumulator, and the completed arguments so far.
#[verifier::ext_equal]
pub ghost struct Machine {
    pub mode: Mode,
    pub prior: Mode,
    pub arg: Seq<char>,
    pub var: Seq<char>,
    pub out: Seq<Seq<char>>,
}

/// What processing a piece of input yields: the next machine state, or the
/// name of an undefined variable whose expansion was requested.
pub ghost enum Outcome {
    Next(Machine),
    Undefined(Seq<char>),
}

/// In an unquoted escape the backslash is suppressed before these characters;
/// before any other the backslash itself is kept.
pub open spec fn bare_escape_drops_backslash(c: char) -> bool {
    c == '\\' || c == '"' || c == ' ' || c == 'n'
}

/// In a double-quoted escape the backslash is suppressed only before these.
pub open spec fn dquote_escape_drops_backslash(c: char) -> bool {
    c == '\\' || c == '"'
}

/// The characters that end a `$name` variable reference.
pub open spec fn is_var_terminator(c: char) -> bool {
    c == ' ' || c == '\\' || c == '"'
}

/// The machine at the start of a line: bare mode, everything empty.
pub open spec fn init_machine() -> Machine {
    Machine {
        mode: Mode::Bare,
        prior: Mode::Bare,
        arg: Seq::empty(),
        var: Seq::empty(),
        out: Seq::empty(),
    }
}

/// One transition of the state machine on character `c`.
///
/// A variable terminator is consumed by the expansion itself: it triggers no
/// further mode logic, a closing `"` ends the quote, and a space or backslash
/// terminator is kept literally in the argument being built.
pub open spec fn step(m: Machine, c: char, env: Map<Seq<char>, Seq<char>>) -> Outcome {
    match m.mode {
        Mode::Bare => Outcome::Next(
            if c == '\'' {
                Machine { mode: Mode::SingleQuoted, ..m }
            } else if c == '"' {
                Machine { mode: Mode::DoubleQuoted, ..m }
            } else if c == '\\' {
                Machine { mode: Mode::Escaping, prior: Mode::Bare, ..m }
            } else if c == ' ' {
                if m.arg.len() > 0 {
                    Machine { arg: Seq::empty(), out: m.out.push(m.arg), ..m }
                } else {
                    m
                }
            } else {
                Machine { arg: m.arg.push(c), ..m }
            },
        ),
        Mode::SingleQuoted => Outcome::Next(
            if c == '\'' {
                Machine { mode: Mode::Bare, ..m }
            } else {
                Machine { arg: m.arg.push(c), ..m }
            },
        ),
        Mode::DoubleQuoted => Outcome::Next(
            if c == '"' {
                Machine { mode: Mode::Bare, ..m }
            } else if c == '\\' {
                Machine { mode: Mode::Escaping, prior: Mode::DoubleQuoted, ..m }
            } else if c == '$' {
                Machine { mode: Mode::ExpandingVariable, prior: Mode::DoubleQuoted, ..m }
            } else {
                Machine { arg: m.arg.push(c), ..m }
            },
        ),
        Mode::Escaping => Outcome::Next(
            {
                let keep = match m.prior {
                    Mode::Bare => !bare_escape_drops_backslash(c),
                    Mode::DoubleQuoted => !dquote_escape_drops_backslash(c),
                    _ => false,
                };
                if keep {
                    Machine { mode: m.prior, arg: m.arg.push('\\').push(c), ..m }
                } else {
                    Machine { mode: m.prior, arg: m.arg.push(c), ..m }
                }
            },
        ),
        Mode::ExpandingVariable => {
            if is_var_terminator(c) {
                if env.contains_key(m.var) {
                    let expanded = m.arg + env[m.var];
                    if c == '"' {
                        Outcome::Next(
                            Machine { mode: Mode::Bare, arg: expanded, var: Seq::empty(), ..m },
                        )
                    } else {
                        Outcome::Next(
                            Machine {
                                mode: m.prior,
                                arg: expanded.push(c),
                                var: Seq::empty(),
                                ..m
                            },
                        )
                    }
                } else {
                    Outcome::Undefined(m.var)
                }
            } else {
                Outcome::Next(Machine { var: m.var.push(c), ..m })
            }
        },
    }
}

/// The machine run over a whole character sequence, stopping at the first
/// undefined variable reference.
pub open spec fn run(m: Machine, s: Seq<char>, env: Map<Seq<char>, Seq<char>>) -> Outcome
    decreases s.len(),
{
    if s.len() == 0 {
        Outcome::Next(m)
    } else {
        match step(m, s[0], env) {
            Outcome::Next(m2) => run(m2, s.drop_first(), env),
            Outcome::Undefined(n) => Outcome::Undefined(n),
        }
    }
}

/// The end-of-input flush: a non-empty accumulator becomes the last argument.
pub open spec fn flushed(arg: Seq<char>, out: Seq<Seq<char>>) -> Seq<Seq<char>> {
    if arg.len() > 0 {
        out.push(arg)
    } else {
        out
    }
}

/// The machine run from its initial state over `s`.
pub open spec fn outcome_of(s: Seq<char>, env: Map<Seq<char>, Seq<char>>) -> Outcome {
    run(init_machine(), s, env)
}

/// The token list the machine produces for `s`, or `None` when `s` refers to
/// a variable that `env` does not define.
pub open spec fn tokens_of(s: Seq<char>, env: Map<Seq<char>, Seq<char>>) -> Option<Seq<Seq<char>>> {
    match outcome_of(s, env) {
        Outcome::Next(m) => Some(flushed(m.arg, m.out)),
        Outcome::Undefined(_) => None,
    }
}

/// Running over a concatenation is running over the parts in order.
pub proof fn lemma_run_append(
    m: Machine,
    a: Seq<char>,
    b: Seq<char>,
    env: Map<Seq<char>, Seq<char>>,
)
    ensures
        run(m, a + b, env) == (match run(m, a, env) {
            Outcome::Next(m2) => run(m2, b, env),
            Outcome::Undefined(n) => Outcome::Undefined(n),
        }),
    decreases a.len(),
{
    if a.len() == 0 {
        assert(a + b =~= b);
    } else {
        assert((a + b)[0] == a[0]);
        assert((a + b).drop_first() =~= a.drop_first() + b);
        match step(m, a[0], env) {
            Outcome::Next(m2) => {
                lemma_run_append(m2, a.drop_first(), b, env);
            },
            Outcome::Undefined(_) => {},
        }
    }
}

/// Running over one more character is one more step.
pub proof fn lemma_run_snoc(m: Machine, s: Seq<char>, i: int, env: Map<Seq<char>, Seq<char>>)
    requires
        0 <= i < s.len(),
    ensures
        run(m, s.take(i + 1), env) == (match run(m, s.take(i), env) {
            Outcome::Next(m2) => step(m2, s[i], env),
            Outcome::Undefined(n) => Outcome::Undefined(n),
        }),
{
    let a = s.take(i);
    let b = seq![s[i]];
    assert(s.take(i + 1) =~= a + b);
    lemma_run_append(m, a, b, env);
    match run(m, a, env) {
        Outcome::Next(m2) => {
            assert(b.drop_first() =~= Seq::<char>::empty());
            match step(m2, s[i], env) {
                Outcome::Next(m3) => {
                    assert(run(m2, b, env) == run(m3, b.drop_first(), env));
                },
                Outcome::Undefined(_) => {},
            }
        },
        Outcome::Undefined(_) => {},
    }
}

/// A read-only set of environment-variable bindings, injected into the
/// tokenizer so that expansion is a function of plain values. A later
/// binding for a name overrides an earlier one.
pub struct Env {
    pairs: Vec<(Vec<char>, Vec<char>)>,
}

/// The views of a sequence of name/value vector pairs.
pub open spec fn pair_views(ps: Seq<(Vec<char>, Vec<char>)>) -> Seq<(Seq<char>, Seq<char>)> {
    ps.map_values(|p: (Vec<char>, Vec<char>)| (p.0@, p.1@))
}

/// The lookup map a pair list denotes; the last pair for a name wins.
pub open spec fn env_map(ps: Seq<(Seq<char>, Seq<char>)>) -> Map<Seq<char>, Seq<char>>
    decreases ps.len(),
{
    if ps.len() == 0 {
        Map::empty()
    } else {
        env_map(ps.drop_last()).insert(ps.last().0, ps.last().1)
    }
}

impl View for Env {
    type V = Map<Seq<char>, Seq<char>>;

    closed spec fn view(&self) -> Map<Seq<char>, Seq<char>> {
        env_map(pair_views(self.pairs@))
    }
}

proof fn lemma_env_map_found(ps: Seq<(Seq<char>, Seq<char>)>, k: Seq<char>, i: int)
    requires
        0 <= i < ps.len(),
        ps[i].0 == k,
        forall|j: int| i < j < ps.len() ==> ps[j].0 != k,
    ensures
        env_map(ps).contains_key(k),
        env_map(ps)[k] == ps[i].1,
    decreases ps.len(),
{
    if i == ps.len() - 1 {
    } else {
        assert(ps.drop_last()[i] == ps[i]);
        lemma_env_map_found(ps.drop_last(), k, i);
    }
}

proof fn lemma_env_map_absent(ps: Seq<(Seq<char>, Seq<char>)>, k: Seq<char>)
    requires
        forall|j: int| 0 <= j < ps.len() ==> ps[j].0 != k,
    ensures
        !env_map(ps).contains_key(k),
    decreases ps.len(),
{
    if ps.len() > 0 {
        lemma_env_map_absent(ps.drop_last(), k);
    }
}

/// Character-vector equality, decided element by element.
fn eq_chars(a: &Vec<char>, b: &Vec<char>) -> (r: bool)
    ensures
        r == (a@ == b@),
{
    if a.len() != b.len() {
        return false;
    }
    let mut i: usize = 0;
    while i < a.len()
        invariant
            0 <= i <= a@.len(),
            a@.len() == b@.len(),
            forall|j: int| 0 <= j < i ==> a@[j] == b@[j],
        decreases a@.len() - i,
    {
        if a[i] != b[i] {
            return false;
        }
        i = i + 1;
    }
    proof {
        assert(a@ =~= b@);
    }
    true
}

impl Env {
    /// An environment with no bindings.
    pub fn new() -> (r: Env)
        ensures
            r@ == Map::<Seq<char>, Seq<char>>::empty(),
    {
        Env { pairs: Vec::new() }
    }

    /// Binds `name` to `value`, overriding any earlier binding of `name`.
    pub fn set(&mut self, name: Vec<char>, value: Vec<char>)
        ensures
            final(self)@ == old(self)@.insert(name@, value@),
    {
        let ghost gname = name@;
        let ghost gvalue = value@;
        let ghost before = self.pairs@;
        self.pairs.push((name, value));
        proof {
            assert(pair_views(self.pairs@).drop_last() =~= pair_views(before));
            assert(pair_views(self.pairs@).last() == (gname, gvalue));
        }
    }

    /// The value bound to `name`, if any.
    pub fn lookup(&self, name: &Vec<char>) -> (r: Option<&Vec<char>>)
        ensures
            match r {
                Some(v) => self@.contains_key(name@) && v@ == self@[name@],
                None => !self@.contains_key(name@),
            },
    {
        let mut i: usize = self.pairs.len();
        while i > 0
            invariant
                0 <= i <= self.pairs@.len(),
                forall|j: int| i <= j < self.pairs@.len() ==> pair_views(self.pairs@)[j].0
                    != name@,
            decreases i,
        {
            i = i - 1;
            if eq_chars(&self.pairs[i].0, name) {
                proof {
                    lemma_env_map_found(pair_views(self.pairs@), name@, i as int);
                }
                return Some(&self.pairs[i].1);
            }
        }
        proof {
            lemma_env_map_absent(pair_views(self.pairs@), name@);
        }
        None
    }
}

/// Why a line could not be tokenized.
#[derive(Debug)]
pub enum ParseError {
    /// A `$name` reference named a variable the environment does not define;
    /// the offending name is carried along.
    UndefinedVariable(Vec<char>),
}

/// Splits one line into its tokens, exactly as the spec machine [`run`]
/// describes, reporting the name of the first undefined variable reference
/// instead of producing tokens when expansion fails.
pub fn tokenize(line: &Vec<char>, env: &Env) -> (r: Result<Vec<Vec<char>>, ParseError>)
    ensures
        match r {
            Ok(toks) => tokens_of(line@, env@) == Some(views_of(toks@)),
            Err(e) => {
                &&& tokens_of(line@, env@) is None
                &&& e matches ParseError::UndefinedVariable(v) && outcome_of(line@, env@)
                    == Outcome::Undefined(v@)
            },
        },
{
    let mut mode = Mode::Bare;
    let mut prior = Mode::Bare;
    let mut arg: Vec<char> = Vec::new();
    let mut var: Vec<char> = Vec::new();
    let mut out: Vec<Vec<char>> = Vec::new();
    let mut i: usize = 0;
    proof {
        assert(line@.take(0) =~= Seq::<char>::empty());
        assert(views_of(out@) =~= Seq::<Seq<char>>::empty());
        assert(Machine { mode, prior, arg: arg@, var: var@, out: views_of(out@) }
            =~= init_machine());
    }
    while i < line.len()
        invariant
            0 <= i <= line@.len(),
            run(init_machine(), line@.take(i as int), env@) == Outcome::Next(
                Machine { mode, prior, arg: arg@, var: var@, out: views_of(out@) },
            ),
        decreases line@.len() - i,
    {
        let ghost pre = Machine { mode, prior, arg: arg@, var: var@, out: views_of(out@) };
        let c = line[i];
        proof {
            lemma_run_snoc(init_machine(), line@, i as int, env@);
        }
        match mode {
            Mode::Bare => {
                if c == '\'' {
                    mode = Mode::SingleQuoted;
                } else if c == '"' {
                    mode = Mode::DoubleQuoted;
                } else if c == '\\' {
                    prior = Mode::Bare;
                    mode = Mode::Escaping;
                } else if c == ' ' {
                    if arg.len() > 0 {
                        let ghost outb = out@;
                        let ghost argv = arg;
                        out.push(arg);
                        arg = Vec::new();
                        proof {
                            lemma_views_of_push(outb, argv);
                        }
                    }
                } else {
                    arg.push(c);
                }
            },
            Mode::SingleQuoted => {
                if c == '\'' {
                    mode = Mode::Bare;
                } else {
                    arg.push(c);
                }
            },
            Mode::DoubleQuoted => {
                if c == '"' {
                    mode = Mode::Bare;
                } else if c == '\\' {
                    prior = Mode::DoubleQuoted;
                    mode = Mode::Escaping;
                } else if c == '$' {
                    prior = Mode::DoubleQuoted;
                    mode = Mode::ExpandingVariable;
                } else {
                    arg.push(c);
                }
            },
            Mode::Escaping => {
                let keep = match prior {
                    Mode::Bare => !(c == '\\' || c == '"' || c == ' ' || c == 'n'),
                    Mode::DoubleQuoted => !(c == '\\' || c == '"'),
                    _ => false,
                };
                if keep {
                    arg.push('\\');
                    arg.push(c);
                } else {
                    arg.push(c);
                }
                mode = prior;
            },
            Mode::ExpandingVariable => {
                if c == ' ' || c == '\\' || c == '"' {
                    match env.lookup(&var) {
                        Some(val) => {
                            let ghost arg0 = arg@;
                            proof {
                                assert(arg0 + val@.take(0) =~= arg0);
                            }
                            let mut j: usize = 0;
                            while j < val.len()
                                invariant
                                    0 <= j <= val@.len(),
                                    arg@ == arg0 + val@.take(j as int),
                                decreases val@.len() - j,
                            {
                                arg.push(val[j]);
                                proof {
                                    assert((arg0 + val@.take(j as int)).push(val@[j as int])
                                        =~= arg0 + val@.take(j as int + 1));
                                }
                                j = j + 1;
                            }
                            proof {
                                assert(val@.take(val@.len() as int) =~= val@);
                            }
                            var = Vec::new();
                            if c == '"' {
                                mode = Mode::Bare;
                            } else {
                                arg.push(c);
                                mode = prior;
                            }
                        },
                        None => {
                            proof {
                                assert(step(pre, line@[i as int], env@) == Outcome::Undefined(
                                    var@,
                                ));
                                lemma_run_append(
                                    init_machine(),
                                    line@.take(i as int + 1),
                                    line@.skip(i as int + 1),
                                    env@,
                                );
                                assert(line@.take(i as int + 1) + line@.skip(i as int + 1)
                                    =~= line@);
                            }
                            return Err(ParseError::UndefinedVariable(var));
                        },
                    }
                } else {
                    var.push(c);
                }
            },
        }
        i = i + 1;
    }
    proof {
        assert(line@.take(line@.len() as int) =~= line@);
    }
    if arg.len() > 0 {
        let ghost outb = out@;
        let ghost argv = arg;
        out.push(arg);
        proof {
            lemma_views_of_push(outb, argv);
        }
    }
    Ok(out)
}

/// A tokenized line: the command name and its arguments, in input order.
pub struct CommandLine {
    pub name: Vec<char>,
    pub args: Vec<Vec<char>>,
}

/// Trims a raw line, tokenizes it, and separates the first token as the
/// command name. A line whose trimmed form yields no token at all is a no-op
/// and comes back as `Ok(None)`; an undefined variable reference comes back
/// as the error that names it.
pub fn parse_cli(line: &Vec<char>, env: &Env) -> (r: Result<Option<CommandLine>, ParseError>)
    ensures
        match r {
            Ok(opt) => {
                &&& tokens_of(trimmed(line@), env@) is Some
                &&& match opt {
                    Some(cl) => {
                        let toks = tokens_of(trimmed(line@), env@).unwrap();
                        &&& toks.len() > 0
                        &&& cl.name@ == toks[0]
                        &&& views_of(cl.args@) == toks.drop_first()
                    },
                    None => tokens_of(trimmed(line@), env@).unwrap().len() == 0,
                }
            },
            Err(e) => {
                &&& tokens_of(trimmed(line@), env@) is None
                &&& e matches ParseError::UndefinedVariable(v) && outcome_of(trimmed(line@), env@)
                    == Outcome::Undefined(v@)
            },
        },
{
    let t = trim(line);
    match tokenize(&t, env) {
        Err(e) => Err(e),
        Ok(mut toks) => {
            if toks.len() == 0 {
                Ok(None)
            } else {
                let ghost all = toks@;
                let name = toks.remove(0);
                proof {
                    assert(toks@ =~= all.drop_first());
                    assert(views_of(toks@) =~= views_of(all).drop_first());
                }
                Ok(Some(CommandLine { name, args: toks }))
            }
        },
    }
}

} // verus!
