//! The argument lines of the custom command: splitting one into arguments and
//! joining arguments back into one.
use vstd::prelude::*;
use crate::text::{any_whitespace, chars_of, has_ws, is_whitespace, is_ws, push_char, push_chars, string_of, views};

verus! {

/// What the argument splitter yields for the unread input `rest`, given the
/// argument `current` that it is building and the arguments `done` that it has
/// finished: arguments are separated by white space, `%1` stands for the
/// folder's path and `%%` for a single `%`.
pub open spec fn args_from(
    rest: Seq<char>,
    path: Seq<char>,
    current: Seq<char>,
    done: Seq<Seq<char>>,
) -> Seq<Seq<char>>
    decreases rest.len(),
{
    if rest.len() == 0 {
        if current.len() > 0 {
            done.push(current)
        } else {
            done
        }
    } else if is_ws(rest[0]) {
        args_from(
            rest.drop_first(),
            path,
            seq![],
            if current.len() > 0 {
                done.push(current)
            } else {
                done
            },
        )
    } else if rest[0] == '%' && rest.len() > 1 && rest[1] == '1' {
        args_from(rest.skip(2), path, current + path, done)
    } else if rest[0] == '%' && rest.len() > 1 && rest[1] == '%' {
        args_from(rest.skip(2), path, current.push('%'), done)
    } else {
        args_from(rest.drop_first(), path, current.push(rest[0]), done)
    }
}

/// The arguments that the line `input` holds, with `path` put in for `%1`.
pub open spec fn spec_parse_args(input: Seq<char>, path: Seq<char>) -> Seq<Seq<char>> {
    args_from(input, path, seq![], seq![])
}

/// `a` with a backslash put before each double quote.
pub open spec fn escape_quotes(a: Seq<char>) -> Seq<char>
    decreases a.len(),
{
    if a.len() == 0 {
        seq![]
    } else if a.last() == '"' {
        escape_quotes(a.drop_last()) + seq!['\\', '"']
    } else {
        escape_quotes(a.drop_last()).push(a.last())
    }
}

/// How one argument is written on an argument line: in double quotes, with its
/// quotes escaped, where it holds white space; as it is otherwise.
pub open spec fn quote_arg(a: Seq<char>) -> Seq<char> {
    if has_ws(a) {
        seq!['"'] + escape_quotes(a) + seq!['"']
    } else {
        a
    }
}

/// The argument line that holds `args`, separated by single spaces.
pub open spec fn spec_join_args(args: Seq<Seq<char>>) -> Seq<char>
    decreases args.len(),
{
    if args.len() == 0 {
        seq![]
    } else if args.len() == 1 {
        quote_arg(args[0])
    } else {
        spec_join_args(args.drop_last()) + seq![' '] + quote_arg(args.last())
    }
}

/// Whether `a` holds no `%1` and no `%%`, the two sequences that the splitter replaces.
pub open spec fn no_placeholder(a: Seq<char>) -> bool {
    forall|i: int|
        0 <= i < a.len() - 1 && #[trigger] a[i] == '%' ==> a[i + 1] != '1' && a[i + 1] != '%'
}

/// Splits the argument line `input` into arguments, putting `path` in for `%1`.
pub fn parse_args(input: &str, path: &str) -> (args: Vec<String>)
    ensures
        views(args@) == spec_parse_args(input@, path@),
{
    let cs = chars_of(input);
    let pc = chars_of(path);
    let mut args: Vec<String> = Vec::new();
    let mut current: Vec<char> = Vec::new();
    let mut i: usize = 0;
    assert(cs@.skip(0) == cs@);
    assert(views(args@) =~= Seq::<Seq<char>>::empty());
    assert(current@ =~= Seq::<char>::empty());
    while i < cs.len()
        invariant
            i <= cs@.len(),
            cs@ == input@,
            pc@ == path@,
            spec_parse_args(input@, path@) == args_from(cs@.skip(i as int), path@, current@, views(args@)),
        decreases cs@.len() - i,
    {
        let c = cs[i];
        let ghost rest = cs@.skip(i as int);
        let ghost cur0 = current@;
        let ghost done0 = views(args@);
        assert(rest[0] == c);
        if is_whitespace(c) {
            assert(rest.drop_first() == cs@.skip(i + 1));
            if current.len() > 0 {
                let s = string_of(&current);
                args.push(s);
                assert(views(args@) =~= done0.push(cur0));
                current = Vec::new();
                assert(current@ =~= Seq::<char>::empty());
            } else {
                assert(current@ =~= Seq::<char>::empty());
            }
            assert(args_from(rest, path@, cur0, done0) == args_from(
                cs@.skip(i + 1),
                path@,
                current@,
                views(args@),
            ));
            i += 1;
        } else if c == '%' && i + 1 < cs.len() && cs[i + 1] == '1' {
            assert(rest[1] == cs@[i + 1]);
            assert(rest.skip(2) == cs@.skip(i + 2));
            let mut j: usize = 0;
            let ghost before = current@;
            while j < pc.len()
                invariant
                    j <= pc@.len(),
                    current@ == before + pc@.take(j as int),
                decreases pc@.len() - j,
            {
                current.push(pc[j]);
                assert(pc@.take(j + 1) == pc@.take(j as int).push(pc@[j as int]));
                j += 1;
            }
            assert(pc@.take(pc@.len() as int) == pc@);
            i += 2;
        } else if c == '%' && i + 1 < cs.len() && cs[i + 1] == '%' {
            assert(rest[1] == cs@[i + 1]);
            assert(rest.skip(2) == cs@.skip(i + 2));
            current.push('%');
            i += 2;
        } else {
            assert(i + 1 < cs.len() ==> rest[1] == cs@[i + 1]);
            assert(rest.drop_first() == cs@.skip(i + 1));
            current.push(c);
            i += 1;
        }
    }
    if current.len() > 0 {
        let s = string_of(&current);
        args.push(s);
        assert(views(args@) =~= views(args@.drop_last()).push(s@));
    }
    args
}

/// Writes one argument as `quote_arg` says, at the end of `out`.
fn push_quoted(out: &mut String, arg: &[char])
    ensures
        final(out)@ == old(out)@ + quote_arg(arg@),
{
    if any_whitespace(arg) {
        push_char(out, '"');
        let ghost start = out@;
        let mut i: usize = 0;
        while i < arg.len()
            invariant
                i <= arg@.len(),
                out@ == start + escape_quotes(arg@.take(i as int)),
            decreases arg@.len() - i,
        {
            assert(arg@.take(i + 1).drop_last() == arg@.take(i as int));
            if arg[i] == '"' {
                push_char(out, '\\');
            }
            push_char(out, arg[i]);
            i += 1;
        }
        assert(arg@.take(arg@.len() as int) == arg@);
        push_char(out, '"');
    } else {
        push_chars(out, arg);
    }
}

/// Joins `args` into one argument line, each written as `quote_arg` says and
/// separated by single spaces.
pub fn join_args(args: &[String]) -> (line: String)
    ensures
        line@ == spec_join_args(views(args@)),
{
    let mut out = String::new();
    let mut i: usize = 0;
    while i < args.len()
        invariant
            i <= args@.len(),
            out@ == spec_join_args(views(args@.take(i as int))),
        decreases args@.len() - i,
    {
        let ghost prefix = views(args@.take(i as int));
        assert(views(args@.take(i + 1)) =~= prefix.push(args@[i as int]@));
        assert(views(args@.take(i + 1)).drop_last() =~= prefix);
        if i > 0 {
            push_char(&mut out, ' ');
        }
        let cs = chars_of(args[i].as_str());
        push_quoted(&mut out, &cs);
        i += 1;
    }
    assert(args@.take(args@.len() as int) == args@);
    out
}

/// Whether `a` comes back unchanged from a round through an argument line:
/// it is not empty, holds no white space, and holds no `%1` or `%%`.
pub open spec fn plain_arg(a: Seq<char>) -> bool {
    a.len() > 0 && !has_ws(a) && no_placeholder(a)
}

/// Splitting a word that holds no white space and no placeholder only adds it
/// to the argument being built, where white space or the end follows it.
proof fn lemma_args_from_word(
    w: Seq<char>,
    rest: Seq<char>,
    path: Seq<char>,
    current: Seq<char>,
    done: Seq<Seq<char>>,
)
    requires
        !has_ws(w),
        no_placeholder(w),
        rest.len() == 0 || is_ws(rest[0]),
    ensures
        args_from(w + rest, path, current, done) == args_from(rest, path, current + w, done),
    decreases w.len(),
{
    if w.len() == 0 {
        assert(w + rest == rest);
        assert(current + w == current);
    } else {
        let s = w + rest;
        assert(s[0] == w[0]);
        assert(!is_ws(w[0]));
        if w.len() > 1 {
            assert(s[1] == w[1]);
            assert(w[0] == '%' ==> w[1] != '1' && w[1] != '%');
        } else if rest.len() > 0 {
            assert(s[1] == rest[0]);
        }
        let w2 = w.drop_first();
        assert(s.drop_first() == w2 + rest);
        assert forall|i: int| 0 <= i < w2.len() implies !is_ws(#[trigger] w2[i]) by {
            assert(w2[i] == w[i + 1]);
        }
        assert forall|i: int| 0 <= i < w2.len() - 1 && #[trigger] w2[i] == '%' implies w2[i + 1]
            != '1' && w2[i + 1] != '%' by {
            assert(w2[i] == w[i + 1]);
            assert(w2[i + 1] == w[i + 2]);
        }
        lemma_args_from_word(w2, rest, path, current.push(w[0]), done);
        assert(current.push(w[0]) + w2 == current + w);
    }
}

/// An argument line of two or more arguments is the first argument, a space,
/// and the line of the others.
proof fn lemma_join_first(args: Seq<Seq<char>>)
    requires
        args.len() >= 2,
    ensures
        spec_join_args(args) == quote_arg(args[0]) + seq![' '] + spec_join_args(args.drop_first()),
    decreases args.len(),
{
    if args.len() > 2 {
        lemma_join_first(args.drop_last());
        assert(args.drop_last().drop_first() == args.drop_first().drop_last());
        assert(args.drop_last()[0] == args[0]);
        assert(args.drop_first().last() == args.last());
        assert(args.drop_first().len() >= 2);
        let a = quote_arg(args[0]);
        let x = spec_join_args(args.drop_last().drop_first());
        let q = quote_arg(args.last());
        assert(spec_join_args(args.drop_first()) == x + seq![' '] + q);
        assert((a + seq![' '] + x) + seq![' '] + q =~= a + seq![' '] + (x + seq![' '] + q));
    } else {
        assert(args.drop_first().len() == 1);
        assert(args.drop_first()[0] == args.last());
        assert(args.drop_last().len() == 1);
        assert(args.drop_last()[0] == args[0]);
        assert(spec_join_args(args.drop_last()) == quote_arg(args[0]));
        assert(spec_join_args(args.drop_first()) == quote_arg(args.last()));
    }
    assert(spec_join_args(args) == spec_join_args(args.drop_last()) + seq![' '] + quote_arg(
        args.last(),
    ));
}

proof fn lemma_split_joined(args: Seq<Seq<char>>, path: Seq<char>, done: Seq<Seq<char>>)
    requires
        forall|i: int| 0 <= i < args.len() ==> plain_arg(#[trigger] args[i]),
    ensures
        args_from(spec_join_args(args), path, seq![], done) == done + args,
    decreases args.len(),
{
    if args.len() == 0 {
        assert(done + args == done);
    } else if args.len() == 1 {
        assert(plain_arg(args[0]));
        lemma_args_from_word(args[0], seq![], path, seq![], done);
        assert(args[0] + Seq::<char>::empty() == args[0]);
        assert(Seq::<char>::empty() + args[0] == args[0]);
        assert(done + args == done.push(args[0]));
    } else {
        assert(plain_arg(args[0]));
        lemma_join_first(args);
        let rest = seq![' '] + spec_join_args(args.drop_first());
        assert(spec_join_args(args) == args[0] + rest);
        lemma_args_from_word(args[0], rest, path, seq![], done);
        assert(Seq::<char>::empty() + args[0] == args[0]);
        assert(rest.drop_first() == spec_join_args(args.drop_first()));
        lemma_split_joined(args.drop_first(), path, done.push(args[0]));
        assert(done.push(args[0]) + args.drop_first() == done + args);
    }
}

/// Splitting an argument line that `join_args` wrote gives back the arguments,
/// provided each is plain (not empty, no white space, no `%1` or `%%`).
pub proof fn lemma_parse_join_args(args: Seq<Seq<char>>, path: Seq<char>)
    requires
        forall|i: int| 0 <= i < args.len() ==> plain_arg(#[trigger] args[i]),
    ensures
        spec_parse_args(spec_join_args(args), path) == args,
{
    lemma_split_joined(args, path, seq![]);
    assert(Seq::<Seq<char>>::empty() + args == args);
}

} // verus!
