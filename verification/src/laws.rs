//! General properties of the tokenizer, stated over the spec machine and
//! proved once for all inputs: single-quoted text passes through verbatim,
//! runs of unquoted spaces collapse, and an unquoted backslash before an
//! ordinary character is kept literally.

use vstd::prelude::*;
use crate::tokenizer::Machine;
use crate::tokenizer::Mode;
use crate::tokenizer::Outcome;
use crate::tokenizer::init_machine;
use crate::tokenizer::lemma_run_append;
use crate::tokenizer::run;
use crate::tokenizer::step;
use crate::tokenizer::tokens_of;

verus! {

/// `'content'` for each segment, the segments separated by single spaces.
pub open spec fn quoted_render(segs: Seq<Seq<char>>) -> Seq<char>
    decreases segs.len(),
{
    if segs.len() == 0 {
        Seq::empty()
    } else if segs.len() == 1 {
        seq!['\''] + segs[0] + seq!['\'']
    } else {
        seq!['\''] + segs[0] + seq!['\''] + seq![' '] + quoted_render(segs.drop_first())
    }
}

/// In single-quote mode every character except `'` is taken verbatim.
proof fn lemma_single_quoted_content(m: Machine, content: Seq<char>, env: Map<Seq<char>, Seq<char>>)
    requires
        m.mode is SingleQuoted,
        !content.contains('\''),
    ensures
        run(m, content, env) == Outcome::Next(Machine { arg: m.arg + content, ..m }),
    decreases content.len(),
{
    if content.len() == 0 {
        assert(m.arg + content =~= m.arg);
        assert(Machine { arg: m.arg + content, ..m } =~= m);
    } else {
        assert(content[0] != '\'');
        let m2 = Machine { arg: m.arg.push(content[0]), ..m };
        assert(step(m, content[0], env) == Outcome::Next(m2));
        assert(!content.drop_first().contains('\'')) by {
            assert(forall|i: int| 0 <= i < content.drop_first().len() ==> content.drop_first()[i]
                == content[i + 1]);
        }
        lemma_single_quoted_content(m2, content.drop_first(), env);
        assert(m2.arg + content.drop_first() =~= m.arg + content);
        assert(Machine { arg: m2.arg + content.drop_first(), ..m2 } =~= Machine {
            arg: m.arg + content,
            ..m
        });
    }
}

/// From bare mode, a whole single-quoted segment appends its content to the
/// argument accumulator and returns to bare mode, changing nothing else.
proof fn lemma_quoted_segment(m: Machine, seg: Seq<char>, env: Map<Seq<char>, Seq<char>>)
    requires
        m.mode is Bare,
        !seg.contains('\''),
    ensures
        run(m, seq!['\''] + seg + seq!['\''], env) == Outcome::Next(
            Machine { arg: m.arg + seg, ..m },
        ),
{
    reveal_with_fuel(run, 3);
    let open_q = seq!['\''];
    let rest = seg + seq!['\''];
    assert(seq!['\''] + seg + seq!['\''] =~= open_q + rest);
    lemma_run_append(m, open_q, rest, env);
    let m1 = Machine { mode: Mode::SingleQuoted, ..m };
    assert(open_q[0] == '\'');
    assert(open_q.drop_first() =~= Seq::<char>::empty());
    assert(run(m, open_q, env) == Outcome::Next(m1));
    lemma_run_append(m1, seg, seq!['\''], env);
    lemma_single_quoted_content(m1, seg, env);
    let m2 = Machine { arg: m.arg + seg, ..m1 };
    assert(seq!['\''][0] == '\'');
    assert(seq!['\''].drop_first() =~= Seq::<char>::empty());
    assert(run(m2, seq!['\''], env) == Outcome::Next(Machine { mode: Mode::Bare, ..m2 }));
    assert(Machine { mode: Mode::Bare, ..m2 } =~= Machine { arg: m.arg + seg, ..m });
}

proof fn lemma_quoted_segments_run(m: Machine, segs: Seq<Seq<char>>, env: Map<Seq<char>, Seq<char>>)
    requires
        m.mode is Bare,
        m.arg.len() == 0,
        segs.len() > 0,
        forall|i: int| 0 <= i < segs.len() ==> (#[trigger] segs[i]).len() > 0 && !segs[i].contains(
            '\'',
        ),
    ensures
        run(m, quoted_render(segs), env) == Outcome::Next(
            Machine { arg: segs.last(), out: m.out + segs.drop_last(), ..m },
        ),
    decreases segs.len(),
{
    if segs.len() == 1 {
        lemma_quoted_segment(m, segs[0], env);
        assert(m.arg + segs[0] =~= segs[0]);
        assert(m.out + segs.drop_last() =~= m.out);
        assert(Machine { arg: m.arg + segs[0], ..m } =~= Machine {
            arg: segs.last(),
            out: m.out + segs.drop_last(),
            ..m
        });
    } else {
        let seg_part = seq!['\''] + segs[0] + seq!['\''];
        let rest_part = seq![' '] + quoted_render(segs.drop_first());
        assert(quoted_render(segs) =~= seg_part + rest_part);
        lemma_run_append(m, seg_part, rest_part, env);
        lemma_quoted_segment(m, segs[0], env);
        let m1 = Machine { arg: m.arg + segs[0], ..m };
        assert(m1.arg =~= segs[0]);
        assert(m1.arg.len() > 0);
        reveal_with_fuel(run, 3);
        lemma_run_append(m1, seq![' '], quoted_render(segs.drop_first()), env);
        let m2 = Machine { arg: Seq::empty(), out: m1.out.push(m1.arg), ..m1 };
        assert(seq![' '][0] == ' ');
        assert(seq![' '].drop_first() =~= Seq::<char>::empty());
        assert(run(m1, seq![' '], env) == Outcome::Next(m2));
        lemma_quoted_segments_run(m2, segs.drop_first(), env);
        let rest = segs.drop_first();
        assert(segs.last() == rest.last());
        assert(m2.out + rest.drop_last() =~= m.out + segs.drop_last()) by {
            assert(m2.out =~= m.out.push(segs[0]));
            assert(segs.drop_last() =~= seq![segs[0]] + rest.drop_last());
        }
        assert(Machine { arg: rest.last(), out: m2.out + rest.drop_last(), ..m2 } =~= Machine {
            arg: segs.last(),
            out: m.out + segs.drop_last(),
            ..m
        });
    }
}

/// An input made only of single-quoted segments, separated by single spaces,
/// tokenizes to exactly the quoted contents, verbatim: no escape handling and
/// no variable expansion touches text inside single quotes, whatever the
/// environment holds.
pub proof fn lemma_single_quoted_verbatim(segs: Seq<Seq<char>>, env: Map<Seq<char>, Seq<char>>)
    requires
        segs.len() > 0,
        forall|i: int| 0 <= i < segs.len() ==> (#[trigger] segs[i]).len() > 0 && !segs[i].contains(
            '\'',
        ),
    ensures
        tokens_of(quoted_render(segs), env) == Some(segs),
{
    lemma_quoted_segments_run(init_machine(), segs, env);
    let final_out = init_machine().out + segs.drop_last();
    assert(segs.last().len() > 0);
    assert(final_out.push(segs.last()) =~= segs) by {
        assert(init_machine().out + segs.drop_last() =~= segs.drop_last());
    }
}

/// The resumption slot only ever holds a mode one can resume: bare or
/// double-quoted, the two modes from which escapes and expansions start.
pub open spec fn prior_resumable(m: Machine) -> bool {
    m.prior is Bare || m.prior is DoubleQuoted
}

proof fn lemma_prior_preserved(m: Machine, s: Seq<char>, env: Map<Seq<char>, Seq<char>>)
    requires
        prior_resumable(m),
    ensures
        run(m, s, env) matches Outcome::Next(m2) ==> prior_resumable(m2),
    decreases s.len(),
{
    if s.len() > 0 {
        match step(m, s[0], env) {
            Outcome::Next(m2) => {
                lemma_prior_preserved(m2, s.drop_first(), env);
            },
            Outcome::Undefined(_) => {},
        }
    }
}

/// In every state the tokenizer reaches, the saved prior mode is itself a
/// resumable one — never an escape or an expansion, which cannot nest.
pub proof fn lemma_prior_mode_invariant(s: Seq<char>, env: Map<Seq<char>, Seq<char>>)
    ensures
        run(init_machine(), s, env) matches Outcome::Next(m) ==> prior_resumable(m),
{
    lemma_prior_preserved(init_machine(), s, env);
}

/// Between arguments, a run of spaces does what a single space does: in bare
/// mode a second consecutive space is a no-op, so unquoted runs of spaces
/// collapse and leading spaces are ignored.
pub proof fn lemma_space_collapse(m: Machine, rest: Seq<char>, env: Map<Seq<char>, Seq<char>>)
    requires
        m.mode is Bare,
    ensures
        run(m, seq![' ', ' '] + rest, env) == run(m, seq![' '] + rest, env),
{
    reveal_with_fuel(run, 4);
    let m1 = if m.arg.len() > 0 {
        Machine { arg: Seq::empty(), out: m.out.push(m.arg), ..m }
    } else {
        m
    };
    assert(step(m, ' ', env) == Outcome::Next(m1));
    assert(step(m1, ' ', env) == Outcome::Next(m1));
    assert((seq![' ', ' '] + rest)[0] == ' ');
    assert((seq![' ', ' '] + rest).drop_first() =~= seq![' '] + rest);
    assert((seq![' '] + rest)[0] == ' ');
    assert((seq![' '] + rest).drop_first() =~= rest);
}

/// The same, for a whole line: wherever a line has reached bare mode, writing
/// two spaces instead of one before the rest of the line changes nothing in
/// the tokens produced.
pub proof fn lemma_space_collapse_line(a: Seq<char>, b: Seq<char>, env: Map<Seq<char>, Seq<char>>)
    requires
        run(init_machine(), a, env) matches Outcome::Next(m) && m.mode is Bare,
    ensures
        tokens_of(a + seq![' ', ' '] + b, env) == tokens_of(a + seq![' '] + b, env),
{
    match run(init_machine(), a, env) {
        Outcome::Next(m) => {
            lemma_space_collapse(m, b, env);
            assert(a + seq![' ', ' '] + b =~= a + (seq![' ', ' '] + b));
            assert(a + seq![' '] + b =~= a + (seq![' '] + b));
            lemma_run_append(init_machine(), a, seq![' ', ' '] + b, env);
            lemma_run_append(init_machine(), a, seq![' '] + b, env);
        },
        Outcome::Undefined(_) => {},
    }
}

/// Unquoted, a backslash before an ordinary character is preserved literally:
/// unless the next character is `\`, `"`, a space, or `n`, both the backslash
/// and the character land in the argument unchanged.
pub proof fn lemma_bare_escape_ordinary(m: Machine, c: char, env: Map<Seq<char>, Seq<char>>)
    requires
        m.mode is Bare,
        c != '\\',
        c != '"',
        c != ' ',
        c != 'n',
    ensures
        run(m, seq!['\\', c], env) == Outcome::Next(
            Machine { arg: m.arg.push('\\').push(c), prior: Mode::Bare, ..m },
        ),
{
    reveal_with_fuel(run, 4);
    let m1 = Machine { mode: Mode::Escaping, prior: Mode::Bare, ..m };
    assert(seq!['\\', c][0] == '\\');
    assert(seq!['\\', c].drop_first() =~= seq![c]);
    assert(step(m, '\\', env) == Outcome::Next(m1));
    let m2 = Machine { mode: Mode::Bare, arg: m.arg.push('\\').push(c), ..m1 };
    assert(step(m1, c, env) == Outcome::Next(m2));
    assert(seq![c][0] == c);
    assert(seq![c].drop_first() =~= Seq::<char>::empty());
    assert(m2 =~= Machine { arg: m.arg.push('\\').push(c), prior: Mode::Bare, ..m });
}

} // verus!
