//! The custom command of a folder: splitting its command line, and the
//! parameter line of an elevated launch.
use vstd::prelude::*;
use crate::args::escape_quotes;
use crate::text::{any_whitespace, chars_of, has_char, has_ws, is_whitespace, is_ws, push_char, push_chars, string_of, views};

verus! {

/// What the command splitter yields for the unread input `rest`, given whether
/// it is inside double quotes, whether the previous character was an escaping
/// backslash, the argument `current` it is building and the finished arguments
/// `done`. Double quotes group white space into an argument and are dropped;
/// inside them a backslash makes the next character literal.
pub open spec fn command_from(
    rest: Seq<char>,
    in_quotes: bool,
    escape: bool,
    current: Seq<char>,
    done: Seq<Seq<char>>,
) -> Seq<Seq<char>>
    decreases rest.len(),
{
    if rest.len() == 0 {
        if current.len() > 0 {
            done.push(current)
        } else {
            done
        }
    } else {
        let c = rest[0];
        let rest2 = rest.drop_first();
        if escape {
            command_from(rest2, in_quotes, false, current.push(c), done)
        } else if c == '\\' && in_quotes {
            command_from(rest2, in_quotes, true, current, done)
        } else if c == '"' {
            command_from(rest2, !in_quotes, false, current, done)
        } else if is_ws(c) && !in_quotes {
            command_from(
                rest2,
                in_quotes,
                false,
                seq![],
                if current.len() > 0 {
                    done.push(current)
                } else {
                    done
                },
            )
        } else {
            command_from(rest2, in_quotes, false, current.push(c), done)
        }
    }
}

/// The parts (program, then arguments) of the command line `input`.
pub open spec fn spec_parse_command(input: Seq<char>) -> Seq<Seq<char>> {
    command_from(input, false, false, seq![], seq![])
}

/// Splits a command line into its parts: the program, then its arguments.
pub fn parse_command(input: &str) -> (parts: Vec<String>)
    ensures
        views(parts@) == spec_parse_command(input@),
{
    let cs = chars_of(input);
    let mut parts: Vec<String> = Vec::new();
    let mut current: Vec<char> = Vec::new();
    let mut in_quotes = false;
    let mut escape = false;
    let mut i: usize = 0;
    assert(cs@.skip(0) == cs@);
    assert(views(parts@) =~= Seq::<Seq<char>>::empty());
    assert(current@ =~= Seq::<char>::empty());
    while i < cs.len()
        invariant
            i <= cs@.len(),
            cs@ == input@,
            spec_parse_command(input@) == command_from(
                cs@.skip(i as int),
                in_quotes,
                escape,
                current@,
                views(parts@),
            ),
        decreases cs@.len() - i,
    {
        let c = cs[i];
        let ghost rest = cs@.skip(i as int);
        let ghost cur0 = current@;
        let ghost done0 = views(parts@);
        assert(rest[0] == c);
        assert(rest.drop_first() == cs@.skip(i + 1));
        if escape {
            current.push(c);
            escape = false;
        } else if c == '\\' && in_quotes {
            escape = true;
        } else if c == '"' {
            in_quotes = !in_quotes;
        } else if is_whitespace(c) && !in_quotes {
            if current.len() > 0 {
                let s = string_of(&current);
                parts.push(s);
                assert(views(parts@) =~= done0.push(cur0));
                current = Vec::new();
            }
            assert(current@ =~= Seq::<char>::empty());
        } else {
            current.push(c);
        }
        i += 1;
    }
    if current.len() > 0 {
        let s = string_of(&current);
        parts.push(s);
        assert(views(parts@) =~= views(parts@.drop_last()).push(s@));
    }
    parts
}

/// How one argument is written for a Windows command line: `""` when it is
/// empty; as it is when it holds neither white space nor a double quote; in
/// double quotes, with its double quotes escaped, otherwise.
pub open spec fn spec_quote_windows_arg(a: Seq<char>) -> Seq<char> {
    if a.len() == 0 {
        seq!['"', '"']
    } else if !has_ws(a) && !has_char(a, '"') {
        a
    } else {
        seq!['"'] + escape_quotes(a) + seq!['"']
    }
}

/// Whether some character of `cs` is a double quote.
fn any_quote(cs: &[char]) -> (b: bool)
    ensures
        b == has_char(cs@, '"'),
{
    let mut i: usize = 0;
    while i < cs.len()
        invariant
            i <= cs@.len(),
            forall|j: int| 0 <= j < i ==> cs@[j] != '"',
        decreases cs@.len() - i,
    {
        if cs[i] == '"' {
            return true;
        }
        i += 1;
    }
    false
}

/// Writes `arg` for a Windows command line, as `spec_quote_windows_arg` says.
pub fn quote_windows_arg(arg: &str) -> (out: String)
    ensures
        out@ == spec_quote_windows_arg(arg@),
{
    let cs = chars_of(arg);
    let mut out = String::new();
    if cs.len() == 0 {
        push_char(&mut out, '"');
        push_char(&mut out, '"');
        assert(out@ =~= seq!['"', '"']);
        return out;
    }
    if !any_whitespace(&cs) && !any_quote(&cs) {
        push_chars(&mut out, &cs);
        assert(out@ =~= cs@);
        return out;
    }
    push_char(&mut out, '"');
    let ghost start = out@;
    let mut i: usize = 0;
    while i < cs.len()
        invariant
            i <= cs@.len(),
            out@ == start + escape_quotes(cs@.take(i as int)),
        decreases cs@.len() - i,
    {
        assert(cs@.take(i + 1).drop_last() == cs@.take(i as int));
        if cs[i] == '"' {
            push_char(&mut out, '\\');
        }
        push_char(&mut out, cs[i]);
        i += 1;
    }
    assert(cs@.take(cs@.len() as int) == cs@);
    push_char(&mut out, '"');
    out
}

/// The parameter line of an elevated launch: each argument written as
/// `spec_quote_windows_arg` says, separated by single spaces.
pub open spec fn spec_runas_parameters(args: Seq<Seq<char>>) -> Seq<char>
    decreases args.len(),
{
    if args.len() == 0 {
        seq![]
    } else if args.len() == 1 {
        spec_quote_windows_arg(args[0])
    } else {
        spec_runas_parameters(args.drop_last()) + seq![' '] + spec_quote_windows_arg(args.last())
    }
}

/// Prepares the elevated launch of a program with `args`: the parameter line
/// that goes to the shell, or `None` where elevation is not available (on
/// systems other than Windows).
pub fn shell_execute_runas(args: &[String], windows: bool) -> (params: Option<String>)
    ensures
        params is None <==> !windows,
        params matches Some(p) ==> p@ == spec_runas_parameters(views(args@)),
{
    if !windows {
        return None;
    }
    let mut out = String::new();
    let mut i: usize = 0;
    while i < args.len()
        invariant
            i <= args@.len(),
            out@ == spec_runas_parameters(views(args@.take(i as int))),
        decreases args@.len() - i,
    {
        let ghost prefix = views(args@.take(i as int));
        assert(views(args@.take(i + 1)) =~= prefix.push(args@[i as int]@));
        assert(views(args@.take(i + 1)).drop_last() =~= prefix);
        if i > 0 {
            push_char(&mut out, ' ');
        }
        let q = quote_windows_arg(args[i].as_str());
        let qc = chars_of(q.as_str());
        push_chars(&mut out, &qc);
        i += 1;
    }
    assert(args@.take(args@.len() as int) == args@);
    Some(out)
}

} // verus!
