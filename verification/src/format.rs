//! The text form of an ini file: how it is read line by line, and how it is written.
use vstd::prelude::*;
use crate::ini::{pos_of, spec_set, Entries, IniModel};
use crate::text::{char_pos, chars_of, trim};

verus! {

/// What one line does to the reader's state, the current section and the
/// contents read so far. The line is trimmed; blank lines and lines that start
/// with `#` are skipped; a line that starts with `[` opens the section named by
/// the whole line; a line with `=` sets the key before the first `=` to the
/// text after it; any other line is skipped.
pub open spec fn parse_line(st: (Seq<char>, IniModel), line: Seq<char>) -> (Seq<char>, IniModel) {
    let t = trim(line);
    if t.len() == 0 || t[0] == '#' {
        st
    } else if t[0] == '[' {
        (t, st.1)
    } else {
        let i = char_pos(t, '=');
        if i < t.len() {
            (st.0, spec_set(st.1, st.0, t.take(i as int), t.skip(i + 1int)))
        } else {
            st
        }
    }
}

/// The reader's state after the unread text `rest`, given the part `line` of
/// the current line that it has read and its state `st` before that line.
/// Lines end at `\n`; a carriage return before it is white space, which the
/// trimming removes.
pub open spec fn parse_chars(rest: Seq<char>, line: Seq<char>, st: (Seq<char>, IniModel)) -> (
    Seq<char>,
    IniModel,
)
    decreases rest.len(),
{
    if rest.len() == 0 {
        parse_line(st, line)
    } else if rest[0] == '\n' {
        parse_chars(rest.drop_first(), seq![], parse_line(st, line))
    } else {
        parse_chars(rest.drop_first(), line.push(rest[0]), st)
    }
}

/// What the text of an ini file holds. Lines before any section header belong
/// to the section with the empty name.
pub open spec fn spec_parse_text(text: Seq<char>) -> IniModel {
    parse_chars(text, seq![], (seq![], seq![])).1
}


/// Whether `a` comes before `b` in the order of strings: character by
/// character, by code point, a proper prefix first.
pub open spec fn seq_less(a: Seq<char>, b: Seq<char>) -> bool
    decreases a.len(),
{
    if a.len() == 0 {
        b.len() > 0
    } else if b.len() == 0 {
        false
    } else if a[0] < b[0] {
        true
    } else if a[0] == b[0] {
        seq_less(a.drop_first(), b.drop_first())
    } else {
        false
    }
}

/// No string comes before itself.
pub proof fn lemma_less_irreflexive(a: Seq<char>)
    ensures
        !seq_less(a, a),
    decreases a.len(),
{
    if a.len() > 0 {
        lemma_less_irreflexive(a.drop_first());
    }
}

/// The order of strings is transitive.
pub proof fn lemma_less_transitive(a: Seq<char>, b: Seq<char>, c: Seq<char>)
    requires
        seq_less(a, b),
        seq_less(b, c),
    ensures
        seq_less(a, c),
    decreases a.len(),
{
    if a.len() > 0 && a[0] == b[0] && b[0] == c[0] {
        lemma_less_transitive(a.drop_first(), b.drop_first(), c.drop_first());
    }
}

/// Of two different strings, one comes before the other.
pub proof fn lemma_less_total(a: Seq<char>, b: Seq<char>)
    requires
        a != b,
    ensures
        seq_less(a, b) || seq_less(b, a),
    decreases a.len(),
{
    if a.len() == 0 {
        if b.len() == 0 {
            assert(a =~= b);
        }
    } else if b.len() > 0 && a[0] == b[0] {
        if a.drop_first() == b.drop_first() {
            assert(a =~= seq![a[0]] + a.drop_first());
            assert(b =~= seq![b[0]] + b.drop_first());
        }
        lemma_less_total(a.drop_first(), b.drop_first());
    }
}

/// The section that Windows reads a folder's name, icon and tip from.
pub open spec fn shell_section() -> Seq<char> {
    "[.ShellClassInfo]"@
}

/// The section of a folder's properties, where its tags are.
pub open spec fn property_section() -> Seq<char> {
    "[{F29F85E0-4FF9-1068-AB91-08002B27B3D9}]"@
}

/// The section of the custom command.
pub open spec fn execution_section() -> Seq<char> {
    "[.CustomExecution]"@
}

/// Whether `m` has a section named `name`.
pub open spec fn has_section(m: IniModel, name: Seq<char>) -> bool {
    exists|i: int| 0 <= i < m.len() && #[trigger] m[i].0 == name
}

/// Whether `name` is one of the two sections that are written first.
pub open spec fn is_preferred(name: Seq<char>) -> bool {
    name == shell_section() || name == property_section()
}

/// The sections that are written first, in this order, where `m` has them.
pub open spec fn present_preferred(m: IniModel) -> Seq<Seq<char>> {
    (if has_section(m, shell_section()) {
        seq![shell_section()]
    } else {
        seq![]
    }) + (if has_section(m, property_section()) {
        seq![property_section()]
    } else {
        seq![]
    })
}

/// Whether every string of `r` comes before the strings after it.
pub open spec fn strictly_sorted(r: Seq<Seq<char>>) -> bool {
    forall|i: int, j: int| 0 <= i < j < r.len() ==> seq_less(r[i], r[j])
}

/// Whether `order` is the order in which the sections of `m` are written:
/// the shell section and then the property section, where `m` has them, and
/// then all the other sections in ascending order of their names.
pub open spec fn section_order(m: IniModel, order: Seq<Seq<char>>) -> bool {
    let p = present_preferred(m);
    let r = order.skip(p.len() as int);
    &&& p.len() <= order.len()
    &&& order.take(p.len() as int) == p
    &&& strictly_sorted(r)
    &&& forall|x: Seq<char>| #[trigger] r.contains(x) <==> has_section(m, x) && !is_preferred(x)
}

/// The lines `key=value` of some entries, each ended by a line feed.
pub open spec fn render_entries(es: Entries) -> Seq<char>
    decreases es.len(),
{
    if es.len() == 0 {
        seq![]
    } else {
        render_entries(es.drop_last()) + es.last().0 + seq!['='] + es.last().1 + seq!['\n']
    }
}

/// How a section is written: nothing where it is empty; otherwise an empty
/// line, the name, and the entries.
pub open spec fn render_section(name: Seq<char>, es: Entries) -> Seq<char> {
    if es.len() == 0 {
        seq![]
    } else {
        seq!['\n'] + name + seq!['\n'] + render_entries(es)
    }
}

/// The entries of the section `name` of `m`; none where there is no such section.
pub open spec fn entries_of(m: IniModel, name: Seq<char>) -> Entries {
    let i = pos_of(m, name);
    if i < m.len() {
        m[i as int].1
    } else {
        seq![]
    }
}

/// The text of `m` when its sections are written in `order`.
pub open spec fn render(m: IniModel, order: Seq<Seq<char>>) -> Seq<char>
    decreases order.len(),
{
    if order.len() == 0 {
        seq![]
    } else {
        render(m, order.drop_last()) + render_section(order.last(), entries_of(m, order.last()))
    }
}


/// A common prefix does not change which of two strings comes first.
pub proof fn lemma_less_skip(a: Seq<char>, b: Seq<char>, i: int)
    requires
        0 <= i <= a.len(),
        i <= b.len(),
        forall|j: int| 0 <= j < i ==> a[j] == b[j],
    ensures
        seq_less(a, b) == seq_less(a.skip(i), b.skip(i)),
    decreases i,
{
    if i > 0 {
        assert(a.skip(i) == a.drop_first().skip(i - 1));
        assert(b.skip(i) == b.drop_first().skip(i - 1));
        lemma_less_skip(a.drop_first(), b.drop_first(), i - 1);
    } else {
        assert(a.skip(0) == a);
        assert(b.skip(0) == b);
    }
}

/// Whether the string `a` comes before the string `b`, character by character.
pub fn str_less(a: &str, b: &str) -> (r: bool)
    ensures
        r == seq_less(a@, b@),
{
    let x = chars_of(a);
    let y = chars_of(b);
    let mut i: usize = 0;
    while i < x.len() && i < y.len() && x[i] == y[i]
        invariant
            i <= x@.len(),
            i <= y@.len(),
            forall|j: int| 0 <= j < i ==> x@[j] == y@[j],
        decreases x@.len() - i,
    {
        i += 1;
    }
    proof {
        lemma_less_skip(x@, y@, i as int);
    }
    if i == x.len() {
        i < y.len()
    } else if i == y.len() {
        false
    } else {
        x[i] < y[i]
    }
}


/// Two ascending lists of the same strings are the same list.
pub proof fn lemma_sorted_unique(r1: Seq<Seq<char>>, r2: Seq<Seq<char>>)
    requires
        strictly_sorted(r1),
        strictly_sorted(r2),
        forall|x: Seq<char>| r1.contains(x) <==> r2.contains(x),
    ensures
        r1 == r2,
    decreases r1.len(),
{
    if r1.len() == 0 {
        if r2.len() > 0 {
            assert(r2.contains(r2[0]));
        }
        assert(r1 =~= r2);
    } else {
        assert(r1.contains(r1[0]));
        let j = choose|j: int| 0 <= j < r2.len() && r2[j] == r1[0];
        assert(r2.contains(r2[0]));
        let i = choose|i: int| 0 <= i < r1.len() && r1[i] == r2[0];
        if r1[0] != r2[0] {
            assert(i > 0 && j > 0);
            assert(seq_less(r2[0], r2[j]));
            assert(seq_less(r1[0], r1[i]));
            lemma_less_transitive(r2[0], r1[0], r2[0]);
            lemma_less_irreflexive(r2[0]);
        }
        let t1 = r1.drop_first();
        let t2 = r2.drop_first();
        assert forall|a: int, b: int| 0 <= a < b < t1.len() implies seq_less(t1[a], t1[b]) by {
            assert(t1[a] == r1[a + 1] && t1[b] == r1[b + 1]);
        }
        assert forall|a: int, b: int| 0 <= a < b < t2.len() implies seq_less(t2[a], t2[b]) by {
            assert(t2[a] == r2[a + 1] && t2[b] == r2[b + 1]);
        }
        assert forall|x: Seq<char>| t1.contains(x) <==> t2.contains(x) by {
            if t1.contains(x) {
                let a = choose|a: int| 0 <= a < t1.len() && t1[a] == x;
                assert(r1[a + 1] == x);
                assert(seq_less(r1[0], r1[a + 1]));
                if x == r1[0] {
                    lemma_less_irreflexive(x);
                }
                assert(r2.contains(x));
                let b = choose|b: int| 0 <= b < r2.len() && r2[b] == x;
                assert(b != 0);
                assert(t2[b - 1] == x);
            }
            if t2.contains(x) {
                let a = choose|a: int| 0 <= a < t2.len() && t2[a] == x;
                assert(r2[a + 1] == x);
                assert(seq_less(r2[0], r2[a + 1]));
                if x == r2[0] {
                    lemma_less_irreflexive(x);
                }
                assert(r1.contains(x));
                let b = choose|b: int| 0 <= b < r1.len() && r1[b] == x;
                assert(b != 0);
                assert(t1[b - 1] == x);
            }
        }
        lemma_sorted_unique(t1, t2);
        assert(r1 =~= seq![r1[0]] + t1);
        assert(r2 =~= seq![r2[0]] + t2);
    }
}

/// The order in which the sections of an ini file are written is determined by
/// their names alone: there is one such order.
pub proof fn lemma_section_order_unique(m: IniModel, o1: Seq<Seq<char>>, o2: Seq<Seq<char>>)
    requires
        section_order(m, o1),
        section_order(m, o2),
    ensures
        o1 == o2,
{
    let p = present_preferred(m);
    let r1 = o1.skip(p.len() as int);
    let r2 = o2.skip(p.len() as int);
    assert forall|x: Seq<char>| r1.contains(x) <==> r2.contains(x) by {
        assert(r1.contains(x) <==> has_section(m, x) && !is_preferred(x));
        assert(r2.contains(x) <==> has_section(m, x) && !is_preferred(x));
    }
    lemma_sorted_unique(r1, r2);
    assert(o1 =~= o1.take(p.len() as int) + r1);
    assert(o2 =~= o2.take(p.len() as int) + r2);
}

} // verus!
