//! The pure decisions of the dispatch loop: which builtin a command name
//! denotes, how the `exit` argument reads as an integer, what `cd` should
//! change to, how `echo` joins its arguments, and how a colon-separated
//! search path splits into directories. The surrounding input/output — the
//! prompt, the blocking read, spawning external programs — stays outside the
//! library and feeds these functions plain values.

use vstd::prelude::*;
use crate::text::copy_chars;
use crate::text::views_of;

verus! {

/// The closed set of commands the shell itself implements.
pub enum Builtin {
    Exit,
    Echo,
    Type,
    Pwd,
    Cd,
}

/// The builtin a command name denotes, if any.
pub open spec fn builtin_spec(name: Seq<char>) -> Option<Builtin> {
    if name == seq!['e', 'x', 'i', 't'] {
        Some(Builtin::Exit)
    } else if name == seq!['e', 'c', 'h', 'o'] {
        Some(Builtin::Echo)
    } else if name == seq!['t', 'y', 'p', 'e'] {
        Some(Builtin::Type)
    } else if name == seq!['p', 'w', 'd'] {
        Some(Builtin::Pwd)
    } else if name == seq!['c', 'd'] {
        Some(Builtin::Cd)
    } else {
        None
    }
}

/// Decides which builtin, if any, the command name denotes.
pub fn builtin_of(name: &Vec<char>) -> (r: Option<Builtin>)
    ensures
        r == builtin_spec(name@),
{
    let n = name.len();
    if n == 4 && name[0] == 'e' && name[1] == 'x' && name[2] == 'i' && name[3] == 't' {
        proof {
            assert(name@ =~= seq!['e', 'x', 'i', 't']);
        }
        Some(Builtin::Exit)
    } else if n == 4 && name[0] == 'e' && name[1] == 'c' && name[2] == 'h' && name[3] == 'o' {
        proof {
            assert(name@ =~= seq!['e', 'c', 'h', 'o']);
        }
        Some(Builtin::Echo)
    } else if n == 4 && name[0] == 't' && name[1] == 'y' && name[2] == 'p' && name[3] == 'e' {
        proof {
            assert(name@ =~= seq!['t', 'y', 'p', 'e']);
        }
        Some(Builtin::Type)
    } else if n == 3 && name[0] == 'p' && name[1] == 'w' && name[2] == 'd' {
        proof {
            assert(name@ =~= seq!['p', 'w', 'd']);
        }
        Some(Builtin::Pwd)
    } else if n == 2 && name[0] == 'c' && name[1] == 'd' {
        proof {
            assert(name@ =~= seq!['c', 'd']);
        }
        Some(Builtin::Cd)
    } else {
        None
    }
}

/// A decimal digit.
pub open spec fn is_digit(c: char) -> bool {
    '0' <= c && c <= '9'
}

/// The value of one decimal digit.
pub open spec fn digit_val(c: char) -> int {
    c as int - '0' as int
}

/// Every character of the sequence is a decimal digit.
pub open spec fn all_digits(s: Seq<char>) -> bool {
    forall|i: int| 0 <= i < s.len() ==> is_digit(#[trigger] s[i])
}

/// The number a digit sequence denotes in base ten.
pub open spec fn digits_val(s: Seq<char>) -> int
    decreases s.len(),
{
    if s.len() == 0 {
        0
    } else {
        digits_val(s.drop_last()) * 10 + digit_val(s.last())
    }
}

/// The digit part of an integer literal: everything after a leading sign.
pub open spec fn digit_part(s: Seq<char>) -> Seq<char> {
    if s.len() > 0 && (s[0] == '+' || s[0] == '-') {
        s.drop_first()
    } else {
        s
    }
}

/// Whether the literal carries a minus sign.
pub open spec fn has_minus(s: Seq<char>) -> bool {
    s.len() > 0 && s[0] == '-'
}

/// The signed 32-bit integer a character sequence denotes: an optional sign,
/// then one or more decimal digits, the whole value within `i32` range.
/// Anything else denotes nothing.
pub open spec fn parsed_i32(s: Seq<char>) -> Option<int> {
    let ds = digit_part(s);
    if ds.len() > 0 && all_digits(ds) {
        let v = if has_minus(s) {
            -digits_val(ds)
        } else {
            digits_val(ds)
        };
        if -0x8000_0000 <= v <= 0x7fff_ffff {
            Some(v)
        } else {
            None
        }
    } else {
        None
    }
}

proof fn lemma_digits_val_nonneg(s: Seq<char>)
    requires
        all_digits(s),
    ensures
        digits_val(s) >= 0,
    decreases s.len(),
{
    if s.len() > 0 {
        assert(all_digits(s.drop_last()));
        lemma_digits_val_nonneg(s.drop_last());
    }
}

proof fn lemma_digits_val_prefix(s: Seq<char>, j: int)
    requires
        all_digits(s),
        0 <= j <= s.len(),
    ensures
        digits_val(s.take(j)) <= digits_val(s),
    decreases s.len() - j,
{
    if j < s.len() {
        assert(all_digits(s.take(j + 1)));
        lemma_digits_val_nonneg(s.take(j + 1));
        assert(s.take(j + 1).drop_last() =~= s.take(j));
        assert(digits_val(s.take(j + 1)) == digits_val(s.take(j)) * 10 + digit_val(
            s.take(j + 1).last(),
        ));
        lemma_digits_val_nonneg(s.take(j));
        lemma_digits_val_prefix(s, j + 1);
    } else {
        assert(s.take(j) =~= s);
    }
}

/// Reads a command argument as a 32-bit exit status, exactly when it is an
/// optionally signed run of decimal digits whose value fits.
pub fn parse_i32(s: &Vec<char>) -> (r: Option<i32>)
    ensures
        match r {
            Some(n) => parsed_i32(s@) == Some(n as int),
            None => parsed_i32(s@) is None,
        },
{
    let mut start: usize = 0;
    let mut neg = false;
    if s.len() > 0 && (s[0] == '+' || s[0] == '-') {
        start = 1;
        neg = s[0] == '-';
    }
    let ghost ds = digit_part(s@);
    proof {
        assert(ds =~= s@.subrange(start as int, s@.len() as int));
    }
    if start == s.len() {
        return None;
    }
    let mut acc: i64 = 0;
    let mut i: usize = start;
    proof {
        assert(ds.take(0) =~= Seq::<char>::empty());
    }
    while i < s.len()
        invariant
            start <= i <= s@.len(),
            ds == digit_part(s@),
            ds == s@.subrange(start as int, s@.len() as int),
            all_digits(ds.take(i - start)),
            0 <= acc <= 0x8000_0000,
            acc == digits_val(ds.take(i - start)),
        decreases s@.len() - i,
    {
        let c = s[i];
        if !('0' <= c && c <= '9') {
            proof {
                assert(ds[i - start] == c);
                assert(!all_digits(ds));
                assert(parsed_i32(s@) is None);
            }
            return None;
        }
        let d = (c as u32) - ('0' as u32);
        proof {
            assert(ds.take(i - start + 1).drop_last() =~= ds.take(i - start));
            assert(ds.take(i - start + 1).last() == ds[i - start]);
        }
        acc = acc * 10 + (d as i64);
        i = i + 1;
        if acc > 0x8000_0000 {
            proof {
                assert(all_digits(ds) ==> digits_val(ds) >= acc) by {
                    if all_digits(ds) {
                        lemma_digits_val_prefix(ds, i - start);
                    }
                }
                assert(parsed_i32(s@) is None);
            }
            return None;
        }
    }
    proof {
        assert(ds.take(i - start) =~= ds);
    }
    if neg {
        let n: i64 = -acc;
        Some(n as i32)
    } else {
        if acc > 0x7fff_ffff {
            None
        } else {
            Some(acc as i32)
        }
    }
}

/// What `cd` resolves its argument to before the working directory changes.
pub enum CdTarget {
    /// No argument: stay in the current directory.
    Here,
    /// `~`: the home directory named by the environment.
    Home,
    /// Any other argument: that path itself.
    Dir(Vec<char>),
}

/// Decides where `cd` should go: no argument means the current directory,
/// `~` means the home directory, anything else is taken as the path itself.
pub fn cd_target(args: &Vec<Vec<char>>) -> (r: CdTarget)
    ensures
        args@.len() == 0 ==> r is Here,
        args@.len() > 0 && args@[0]@ == seq!['~'] ==> r is Home,
        args@.len() > 0 && args@[0]@ != seq!['~'] ==> (r matches CdTarget::Dir(p) && p@
            == args@[0]@),
{
    if args.len() == 0 {
        CdTarget::Here
    } else if args[0].len() == 1 && args[0][0] == '~' {
        proof {
            assert(args@[0]@ =~= seq!['~']);
        }
        CdTarget::Home
    } else {
        CdTarget::Dir(copy_chars(&args[0]))
    }
}

/// The arguments joined by single spaces, as `echo` prints them.
pub open spec fn joined(args: Seq<Seq<char>>) -> Seq<char>
    decreases args.len(),
{
    if args.len() == 0 {
        Seq::empty()
    } else if args.len() == 1 {
        args[0]
    } else {
        args[0] + seq![' '] + joined(args.drop_first())
    }
}

proof fn lemma_joined_push(s: Seq<Seq<char>>, x: Seq<char>)
    ensures
        joined(s.push(x)) == if s.len() == 0 {
            x
        } else {
            joined(s) + seq![' '] + x
        },
    decreases s.len(),
{
    let p = s.push(x);
    if s.len() == 0 {
        assert(p.len() == 1);
        assert(p[0] == x);
    } else {
        assert(p[0] == s[0]);
        assert(p.drop_first() =~= s.drop_first().push(x));
        lemma_joined_push(s.drop_first(), x);
        if s.len() == 1 {
            assert(joined(p) == p[0] + seq![' '] + joined(p.drop_first()));
            assert(joined(p.drop_first()) == x);
            assert(joined(s) == s[0]);
        } else {
            assert(joined(p) == s[0] + seq![' '] + joined(s.drop_first().push(x)));
            assert(s[0] + seq![' '] + (joined(s.drop_first()) + seq![' '] + x) =~= (s[0]
                + seq![' '] + joined(s.drop_first())) + seq![' '] + x);
        }
    }
}

/// Joins the arguments with single spaces between them.
pub fn join_spaces(args: &Vec<Vec<char>>) -> (r: Vec<char>)
    ensures
        r@ == joined(views_of(args@)),
{
    let ghost vs = views_of(args@);
    let mut r: Vec<char> = Vec::new();
    let mut i: usize = 0;
    proof {
        assert(vs.take(0) =~= Seq::<Seq<char>>::empty());
    }
    while i < args.len()
        invariant
            0 <= i <= args@.len(),
            vs == views_of(args@),
            r@ == joined(vs.take(i as int)),
        decreases args@.len() - i,
    {
        if i > 0 {
            r.push(' ');
        }
        let ghost mid = r@;
        let word = &args[i];
        let mut j: usize = 0;
        proof {
            assert(mid + word@.take(0) =~= mid);
        }
        while j < word.len()
            invariant
                0 <= j <= word@.len(),
                r@ == mid + word@.take(j as int),
            decreases word@.len() - j,
        {
            r.push(word[j]);
            proof {
                assert((mid + word@.take(j as int)).push(word@[j as int]) =~= mid + word@.take(
                    j as int + 1,
                ));
            }
            j = j + 1;
        }
        proof {
            assert(word@.take(word@.len() as int) =~= word@);
            lemma_joined_push(vs.take(i as int), vs[i as int]);
            assert(vs.take(i as int).push(vs[i as int]) =~= vs.take(i as int + 1));
            if i == 0 {
                assert(mid =~= Seq::<char>::empty());
                assert(mid + word@ =~= word@);
            } else {
                assert(joined(vs.take(i as int)).push(' ') =~= joined(vs.take(i as int))
                    + seq![' ']);
            }
        }
        i = i + 1;
    }
    proof {
        assert(vs.take(vs.len() as int) =~= vs);
    }
    r
}

/// The fields of a colon-separated search path, in order; empty fields are
/// kept, and an empty path is one empty field.
pub open spec fn split_on_colon(s: Seq<char>) -> Seq<Seq<char>>
    decreases s.len(),
{
    if s.len() == 0 {
        seq![Seq::<char>::empty()]
    } else if s[0] == ':' {
        seq![Seq::<char>::empty()] + split_on_colon(s.drop_first())
    } else {
        let rest = split_on_colon(s.drop_first());
        seq![seq![s[0]] + rest[0]] + rest.drop_first()
    }
}

fn split_colon_from(s: &Vec<char>, i: usize) -> (r: Vec<Vec<char>>)
    requires
        i <= s@.len(),
    ensures
        r@.len() >= 1,
        views_of(r@) == split_on_colon(s@.skip(i as int)),
    decreases s@.len() - i,
{
    if i == s.len() {
        let mut r: Vec<Vec<char>> = Vec::new();
        r.push(Vec::new());
        proof {
            assert(s@.skip(i as int) =~= Seq::<char>::empty());
            assert(views_of(r@) =~= seq![Seq::<char>::empty()]);
        }
        r
    } else if s[i] == ':' {
        let mut rest = split_colon_from(s, i + 1);
        let ghost r0 = rest@;
        rest.insert(0, Vec::new());
        proof {
            assert(s@.skip(i as int)[0] == s@[i as int]);
            assert(s@.skip(i as int).drop_first() =~= s@.skip(i as int + 1));
            assert(views_of(rest@) =~= seq![Seq::<char>::empty()] + views_of(r0));
        }
        rest
    } else {
        let mut rest = split_colon_from(s, i + 1);
        let ghost r0 = rest@;
        let mut first = rest.remove(0);
        let ghost f0 = first@;
        first.insert(0, s[i]);
        rest.insert(0, first);
        proof {
            let c = s@[i as int];
            assert(s@.skip(i as int)[0] == c);
            assert(s@.skip(i as int).drop_first() =~= s@.skip(i as int + 1));
            assert(f0 == views_of(r0)[0]);
            assert(f0.insert(0, c) =~= seq![c] + f0);
            assert(views_of(rest@) =~= seq![seq![c] + views_of(r0)[0]] + views_of(
                r0,
            ).drop_first()) by {
                assert(rest@.len() == r0.len());
                assert(rest@[0]@ == seq![c] + views_of(r0)[0]);
                assert(forall|k: int| 1 <= k < rest@.len() ==> rest@[k] == r0[k]);
            }
        }
        rest
    }
}

/// Splits a colon-separated search path into its directories, in listed
/// order, keeping empty fields.
pub fn split_colon(s: &Vec<char>) -> (r: Vec<Vec<char>>)
    ensures
        r@.len() >= 1,
        views_of(r@) == split_on_colon(s@),
{
    let r = split_colon_from(s, 0);
    proof {
        assert(s@.skip(0) =~= s@);
    }
    r
}

/// The position of the first directory where the probe succeeded, honoring
/// the listed order: the search result is the earliest hit or nothing.
pub fn first_match(found: &Vec<bool>) -> (r: Option<usize>)
    ensures
        match r {
            Some(i) => i < found@.len() && found@[i as int] && (forall|j: int|
                0 <= j < i ==> !found@[j]),
            None => forall|j: int| 0 <= j < found@.len() ==> !found@[j],
        },
{
    let mut i: usize = 0;
    while i < found.len()
        invariant
            0 <= i <= found@.len(),
            forall|j: int| 0 <= j < i ==> !found@[j],
        decreases found@.len() - i,
    {
        if found[i] {
            return Some(i);
        }
        i = i + 1;
    }
    None
}

/// The candidate path `dir/name` that the search for an executable probes.
pub fn path_join(dir: &Vec<char>, name: &Vec<char>) -> (r: Vec<char>)
    ensures
        r@ == dir@ + seq!['/'] + name@,
{
    let mut r = copy_chars(dir);
    r.push('/');
    let ghost mid = r@;
    proof {
        assert(mid + name@.take(0) =~= mid);
    }
    let mut i: usize = 0;
    while i < name.len()
        invariant
            0 <= i <= name@.len(),
            r@ == mid + name@.take(i as int),
        decreases name@.len() - i,
    {
        r.push(name[i]);
        proof {
            assert((mid + name@.take(i as int)).push(name@[i as int]) =~= mid + name@.take(
                i as int + 1,
            ));
        }
        i = i + 1;
    }
    proof {
        assert(name@.take(name@.len() as int) =~= name@);
        assert(mid + name@ =~= dir@ + seq!['/'] + name@);
    }
    r
}

} // verus!
