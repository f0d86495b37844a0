//! Character-sequence utilities shared by the tokenizer and the dispatcher:
//! trimming the outer whitespace of a raw line, viewing a vector of character
//! vectors as a sequence of sequences, joining words with spaces, and
//! splitting a search-path string on colons.

use vstd::prelude::*;

verus! {

/// Whitespace characters removed from the ends of a raw input line.
pub open spec fn is_wsp(c: char) -> bool {
    c == ' ' || c == '\t' || c == '\n' || c == '\r'
}

/// The sequence with its leading whitespace removed.
pub open spec fn trim_front(s: Seq<char>) -> Seq<char>
    decreases s.len(),
{
    if s.len() > 0 && is_wsp(s[0]) {
        trim_front(s.drop_first())
    } else {
        s
    }
}

/// The sequence with its trailing whitespace removed.
pub open spec fn trim_back(s: Seq<char>) -> Seq<char>
    decreases s.len(),
{
    if s.len() > 0 && is_wsp(s.last()) {
        trim_back(s.drop_last())
    } else {
        s
    }
}

/// The sequence with the whitespace at both ends removed.
pub open spec fn trimmed(s: Seq<char>) -> Seq<char> {
    trim_back(trim_front(s))
}

/// The views of a sequence of character vectors.
pub open spec fn views_of(v: Seq<Vec<char>>) -> Seq<Seq<char>> {
    v.map_values(|x: Vec<char>| x@)
}

pub proof fn lemma_views_of_push(v: Seq<Vec<char>>, x: Vec<char>)
    ensures
        views_of(v.push(x)) =~= views_of(v).push(x@),
{
}

/// A fresh vector holding the same characters.
pub fn copy_chars(v: &Vec<char>) -> (r: Vec<char>)
    ensures
        r@ == v@,
{
    let mut r: Vec<char> = Vec::new();
    let mut i: usize = 0;
    while i < v.len()
        invariant
            0 <= i <= v@.len(),
            r@ == v@.take(i as int),
        decreases v@.len() - i,
    {
        r.push(v[i]);
        proof {
            assert(v@.take(i as int).push(v@[i as int]) =~= v@.take(i as int + 1));
        }
        i = i + 1;
    }
    proof {
        assert(v@.take(v@.len() as int) =~= v@);
    }
    r
}

/// Removes the whitespace at both ends of a raw line.
pub fn trim(line: &Vec<char>) -> (r: Vec<char>)
    ensures
        r@ == trimmed(line@),
{
    let ghost n = line@.len() as int;
    proof {
        assert(line@.subrange(0, n) =~= line@);
    }
    let mut a: usize = 0;
    while a < line.len() && (line[a] == ' ' || line[a] == '\t' || line[a] == '\n' || line[a]
        == '\r')
        invariant
            0 <= a <= line@.len(),
            trim_front(line@) == trim_front(line@.subrange(a as int, n)),
            n == line@.len(),
        decreases line@.len() - a,
    {
        proof {
            assert(line@.subrange(a as int, n).drop_first() =~= line@.subrange(a as int + 1, n));
        }
        a = a + 1;
    }
    proof {
        if a < line@.len() {
            assert(!is_wsp(line@.subrange(a as int, n)[0]));
        }
        assert(trim_front(line@) == line@.subrange(a as int, n));
    }
    let mut b: usize = line.len();
    while b > a && (line[b - 1] == ' ' || line[b - 1] == '\t' || line[b - 1] == '\n' || line[b - 1]
        == '\r')
        invariant
            a <= b <= line@.len(),
            n == line@.len(),
            trim_front(line@) == line@.subrange(a as int, n),
            trim_back(line@.subrange(a as int, n)) == trim_back(line@.subrange(a as int, b as int)),
        decreases b,
    {
        proof {
            assert(line@.subrange(a as int, b as int).last() == line@[b - 1]);
            assert(line@.subrange(a as int, b as int).drop_last() =~= line@.subrange(
                a as int,
                b as int - 1,
            ));
        }
        b = b - 1;
    }
    proof {
        if b > a {
            assert(!is_wsp(line@.subrange(a as int, b as int).last()));
        }
        assert(trim_back(line@.subrange(a as int, n)) == line@.subrange(a as int, b as int));
    }
    let mut r: Vec<char> = Vec::new();
    let mut i: usize = a;
    while i < b
        invariant
            a <= i <= b <= line@.len(),
            r@ == line@.subrange(a as int, i as int),
        decreases b - i,
    {
        r.push(line[i]);
        proof {
            assert(line@.subrange(a as int, i as int).push(line@[i as int]) =~= line@.subrange(
                a as int,
                i as int + 1,
            ));
        }
        i = i + 1;
    }
    proof {
        assert(r@ == trimmed(line@));
    }
    r
}

} // verus!
