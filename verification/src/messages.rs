//! The exact texts the dispatcher prints: each builder returns the full
//! message for one situation, pinned character by character, so the
//! input/output layer only writes what comes back.

use vstd::prelude::*;
use crate::text::copy_chars;

verus! {

/// Appends `suffix` to `dst`.
fn append_chars(dst: &mut Vec<char>, suffix: &Vec<char>)
    ensures
        final(dst)@ == old(dst)@ + suffix@,
{
    let ghost base = dst@;
    proof {
        assert(base + suffix@.take(0) =~= base);
    }
    let mut i: usize = 0;
    while i < suffix.len()
        invariant
            0 <= i <= suffix@.len(),
            dst@ == base + suffix@.take(i as int),
        decreases suffix@.len() - i,
    {
        dst.push(suffix[i]);
        proof {
            assert((base + suffix@.take(i as int)).push(suffix@[i as int]) =~= base
                + suffix@.take(i as int + 1));
        }
        i = i + 1;
    }
    proof {
        assert(suffix@.take(suffix@.len() as int) =~= suffix@);
    }
}

/// ` is a shell builtin`
pub open spec fn builtin_suffix() -> Seq<char> {
    seq![
        ' ',
        'i',
        's',
        ' ',
        'a',
        ' ',
        's',
        'h',
        'e',
        'l',
        'l',
        ' ',
        'b',
        'u',
        'i',
        'l',
        't',
        'i',
        'n',
    ]
}

fn builtin_suffix_chars() -> (r: Vec<char>)
    ensures
        r@ == builtin_suffix(),
{
    let mut r: Vec<char> = Vec::new();
    r.push(' ');
    r.push('i');
    r.push('s');
    r.push(' ');
    r.push('a');
    r.push(' ');
    r.push('s');
    r.push('h');
    r.push('e');
    r.push('l');
    r.push('l');
    r.push(' ');
    r.push('b');
    r.push('u');
    r.push('i');
    r.push('l');
    r.push('t');
    r.push('i');
    r.push('n');
    proof {
        assert(r@ =~= builtin_suffix());
    }
    r
}

/// What `type` prints for a builtin name.
pub fn builtin_message(name: &Vec<char>) -> (r: Vec<char>)
    ensures
        r@ == name@ + builtin_suffix(),
{
    let mut r = copy_chars(name);
    let suffix = builtin_suffix_chars();
    append_chars(&mut r, &suffix);
    r
}

/// `: not found`
pub open spec fn not_found_suffix() -> Seq<char> {
    seq![':', ' ', 'n', 'o', 't', ' ', 'f', 'o', 'u', 'n', 'd']
}

fn not_found_suffix_chars() -> (r: Vec<char>)
    ensures
        r@ == not_found_suffix(),
{
    let mut r: Vec<char> = Vec::new();
    r.push(':');
    r.push(' ');
    r.push('n');
    r.push('o');
    r.push('t');
    r.push(' ');
    r.push('f');
    r.push('o');
    r.push('u');
    r.push('n');
    r.push('d');
    proof {
        assert(r@ =~= not_found_suffix());
    }
    r
}

/// What `type` prints for a name that is neither a builtin nor on the path.
pub fn not_found_message(name: &Vec<char>) -> (r: Vec<char>)
    ensures
        r@ == name@ + not_found_suffix(),
{
    let mut r = copy_chars(name);
    let suffix = not_found_suffix_chars();
    append_chars(&mut r, &suffix);
    r
}

/// ` is `
pub open spec fn is_infix() -> Seq<char> {
    seq![' ', 'i', 's', ' ']
}

/// What `type` prints for a name found on the search path: the name, ` is `,
/// and the full candidate path.
pub fn found_at_message(name: &Vec<char>, path: &Vec<char>) -> (r: Vec<char>)
    ensures
        r@ == name@ + is_infix() + path@,
{
    let mut r = copy_chars(name);
    r.push(' ');
    r.push('i');
    r.push('s');
    r.push(' ');
    append_chars(&mut r, path);
    proof {
        assert(name@.push(' ').push('i').push('s').push(' ') =~= name@ + is_infix());
    }
    r
}

/// `: No such file or directory`
pub open spec fn no_such_dir_suffix() -> Seq<char> {
    seq![
        ':',
        ' ',
        'N',
        'o',
        ' ',
        's',
        'u',
        'c',
        'h',
        ' ',
        'f',
        'i',
        'l',
        'e',
        ' ',
        'o',
        'r',
        ' ',
        'd',
        'i',
        'r',
        'e',
        'c',
        't',
        'o',
        'r',
        'y',
    ]
}

fn no_such_dir_suffix_chars() -> (r: Vec<char>)
    ensures
        r@ == no_such_dir_suffix(),
{
    let mut r: Vec<char> = Vec::new();
    r.push(':');
    r.push(' ');
    r.push('N');
    r.push('o');
    r.push(' ');
    r.push('s');
    r.push('u');
    r.push('c');
    r.push('h');
    r.push(' ');
    r.push('f');
    r.push('i');
    r.push('l');
    r.push('e');
    r.push(' ');
    r.push('o');
    r.push('r');
    r.push(' ');
    r.push('d');
    r.push('i');
    r.push('r');
    r.push('e');
    r.push('c');
    r.push('t');
    r.push('o');
    r.push('r');
    r.push('y');
    proof {
        assert(r@ =~= no_such_dir_suffix());
    }
    r
}

/// What `cd` prints when the target directory cannot be entered.
pub fn no_such_dir_message(dir: &Vec<char>) -> (r: Vec<char>)
    ensures
        r@ == dir@ + no_such_dir_suffix(),
{
    let mut r = copy_chars(dir);
    let suffix = no_such_dir_suffix_chars();
    append_chars(&mut r, &suffix);
    r
}

/// `: command not found`
pub open spec fn command_not_found_suffix() -> Seq<char> {
    seq![
        ':',
        ' ',
        'c',
        'o',
        'm',
        'm',
        'a',
        'n',
        'd',
        ' ',
        'n',
        'o',
        't',
        ' ',
        'f',
        'o',
        'u',
        'n',
        'd',
    ]
}

fn command_not_found_suffix_chars() -> (r: Vec<char>)
    ensures
        r@ == command_not_found_suffix(),
{
    let mut r: Vec<char> = Vec::new();
    r.push(':');
    r.push(' ');
    r.push('c');
    r.push('o');
    r.push('m');
    r.push('m');
    r.push('a');
    r.push('n');
    r.push('d');
    r.push(' ');
    r.push('n');
    r.push('o');
    r.push('t');
    r.push(' ');
    r.push('f');
    r.push('o');
    r.push('u');
    r.push('n');
    r.push('d');
    proof {
        assert(r@ =~= command_not_found_suffix());
    }
    r
}

/// What the shell prints when a command is neither a builtin nor spawnable.
pub fn command_not_found_message(cmd: &Vec<char>) -> (r: Vec<char>)
    ensures
        r@ == cmd@ + command_not_found_suffix(),
{
    let mut r = copy_chars(cmd);
    let suffix = command_not_found_suffix_chars();
    append_chars(&mut r, &suffix);
    r
}

} // verus!
