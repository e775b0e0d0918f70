//! What the builtin commands decide: where `type` looks for a program, and
//! which arguments a program is started with.
use vstd::prelude::*;
use vstd::string::*;

use crate::error::ShellError;
use crate::text::{find_char, find_from, has_char, lemma_find_from, views};

verus! {

/// The pieces of `s` from index `i` on, cut at each `c`, as `str::split`
/// yields them: `k` cuts give `k + 1` pieces, some of which may be empty.
pub open spec fn pieces_from(s: Seq<char>, c: char, i: int) -> Seq<Seq<char>>
    decreases s.len() + 1 - i,
{
    if i < 0 || i > s.len() {
        seq![]
    } else {
        let j = find_from(s, c, i);
        proof {
            lemma_find_from(s, c, i);
        }
        if j >= s.len() {
            seq![s.subrange(i, s.len() as int)]
        } else {
            seq![s.subrange(i, j)] + pieces_from(s, c, j + 1)
        }
    }
}

/// The places where `type` looks for `command`: each directory of the
/// search path `path_var` (its pieces between `:`), followed by `/` and the
/// command.
pub open spec fn search_paths(path_var: Seq<char>, command: Seq<char>) -> Seq<Seq<char>> {
    pieces_from(path_var, ':', 0).map_values(|dir: Seq<char>| dir + "/"@ + command)
}

/// The places where `type` looks for `command`, in the order of the search
/// path `path_var`.
pub fn command_candidates(path_var: &str, command: &str) -> (r: Vec<String>)
    ensures
        views(r@) == search_paths(path_var@, command@),
{
    let n = path_var.unicode_len();
    let ghost all = search_paths(path_var@, command@);
    let mut out: Vec<String> = Vec::new();
    let mut i: usize = 0;
    loop
        invariant_except_break
            i <= n,
            all == views(out@) + pieces_from(path_var@, ':', i as int).map_values(
                |dir: Seq<char>| dir + "/"@ + command@,
            ),
        invariant
            n == path_var@.len(),
            all == search_paths(path_var@, command@),
        ensures
            all == views(out@),
        decreases n - i,
    {
        let j = find_char(path_var, ':', i);
        let mut candidate = path_var.substring_char(i, j).to_owned();
        candidate.append("/");
        candidate.append(command);
        let ghost before = out@;
        out.push(candidate);
        let ghost rest = pieces_from(path_var@, ':', i as int);
        let ghost f = |dir: Seq<char>| dir + "/"@ + command@;
        if j == n {
            proof {
                assert(rest == seq![path_var@.subrange(i as int, n as int)]);
                assert(views(out@) =~= views(before).push(f(rest[0])));
                assert(rest.map_values(f) =~= seq![f(rest[0])]);
                assert(all =~= views(out@));
            }
            break;
        }
        proof {
            assert(rest == seq![path_var@.subrange(i as int, j as int)] + pieces_from(
                path_var@,
                ':',
                j + 1,
            ));
            assert(views(out@) =~= views(before).push(f(rest[0])));
            assert(rest.map_values(f) =~= seq![f(rest[0])] + pieces_from(
                path_var@,
                ':',
                j + 1,
            ).map_values(f));
            assert(views(before) + rest.map_values(f) =~= views(out@) + pieces_from(
                path_var@,
                ':',
                j + 1,
            ).map_values(f));
        }
        i = j + 1;
    }
    out
}

/// The arguments, from the second on, that a program is started with: all
/// but those that hold a NUL character.
pub open spec fn argv_without_nul(args: Seq<Seq<char>>) -> Seq<Seq<char>>
    decreases args.len(),
{
    if args.len() == 0 {
        seq![]
    } else {
        let rest = argv_without_nul(args.drop_last());
        if has_char(args.last(), '\0') {
            rest
        } else {
            rest.push(args.last())
        }
    }
}

/// The argument vector a program is started with: none for no arguments;
/// an error where the program's name holds a NUL character; otherwise the
/// arguments without those that hold one.
pub fn exec_arguments(args: &Vec<String>) -> (r: Result<Vec<String>, ShellError>)
    ensures
        args@.len() == 0 ==> (r matches Ok(v) && v@.len() == 0),
        args@.len() > 0 && has_char(args@[0]@, '\0') ==> (r matches Err(e) && e
            == ShellError::NulInCommand),
        args@.len() > 0 && !has_char(args@[0]@, '\0') ==> (r matches Ok(v) && views(v@)
            == argv_without_nul(views(args@))),
{
    let n = args.len();
    if n == 0 {
        return Ok(Vec::new());
    }
    let first: &str = args[0].as_str();
    if find_char(first, '\0', 0) < first.unicode_len() {
        proof {
            lemma_find_from(first@, '\0', 0);
        }
        return Err(ShellError::NulInCommand);
    }
    proof {
        lemma_find_from(first@, '\0', 0);
    }
    let mut out: Vec<String> = Vec::new();
    let mut i: usize = 0;
    while i < n
        invariant
            n == args@.len(),
            i <= n,
            views(out@) == argv_without_nul(views(args@).take(i as int)),
        decreases n - i,
    {
        let a: &str = args[i].as_str();
        let k = find_char(a, '\0', 0);
        proof {
            lemma_find_from(a@, '\0', 0);
            assert(views(args@).take(i + 1).drop_last() =~= views(args@).take(i as int));
            assert(views(args@).take(i + 1).last() == a@);
        }
        if k == a.unicode_len() {
            let ghost before = out@;
            out.push(args[i].clone());
            proof {
                assert(views(out@) =~= views(before).push(a@));
            }
        }
        i = i + 1;
    }
    assert(views(args@).take(n as int) =~= views(args@));
    Ok(out)
}

} // verus!
