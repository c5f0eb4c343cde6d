//! What reading gives back of what was written: the text that an ini file is
//! written as reads back as the same contents.
use vstd::prelude::*;
use crate::format::{
    entries_of, execution_section, has_section, is_preferred, lemma_less_irreflexive,
    parse_chars, parse_line, present_preferred, property_section, render, render_entries,
    render_section, section_order, seq_less, shell_section, spec_parse_text,
};
use crate::ini::{
    distinct_keys, lemma_get_after_set, lemma_pos_of, lemma_pos_of_distinct, lemma_pos_of_found,
    lemma_pos_of_push, lemma_set_wf, model_wf, pos_of, spec_get, spec_set, Entries, IniModel,
};
use crate::text::{char_pos, has_char, is_ws, lemma_char_pos, trim, trim_end, trim_start};

verus! {

/// A section name that reads back as itself: it starts with `[`, has no white
/// space at either end and no line feed.
pub open spec fn clean_name(n: Seq<char>) -> bool {
    &&& n.len() > 0
    &&& n[0] == '['
    &&& trim(n) == n
    &&& !has_char(n, '\n')
}

/// An entry that reads back as itself: the key holds no `=` and no line feed
/// and does not start with white space, `#` or `[`; the value holds no line
/// feed and does not end with white space.
pub open spec fn clean_entry(e: (Seq<char>, Seq<char>)) -> bool {
    let (k, v) = e;
    &&& !has_char(k, '=')
    &&& !has_char(k, '\n')
    &&& !has_char(v, '\n')
    &&& (k.len() == 0 || (!is_ws(k[0]) && k[0] != '#' && k[0] != '['))
    &&& (v.len() == 0 || !is_ws(v.last()))
}

/// Every section of `m` that holds entries (the others are not written) reads
/// back as itself: its name and each of its entries.
pub open spec fn clean_model(m: IniModel) -> bool {
    forall|i: int| 0 <= i < m.len() && #[trigger] m[i].1.len() > 0 ==> {
        &&& clean_name(m[i].0)
        &&& forall|j: int| 0 <= j < m[i].1.len() ==> clean_entry(#[trigger] m[i].1[j])
    }
}

/// `m` after setting, in order, each entry of `es` in section `n`.
pub open spec fn set_all(m: IniModel, n: Seq<char>, es: Entries) -> IniModel
    decreases es.len(),
{
    if es.len() == 0 {
        m
    } else {
        spec_set(set_all(m, n, es.drop_last()), n, es.last().0, es.last().1)
    }
}

/// The reader's state after it has read a section of `m` named `n`.
pub open spec fn read_section(st: (Seq<char>, IniModel), m: IniModel, n: Seq<char>) -> (
    Seq<char>,
    IniModel,
) {
    let es = entries_of(m, n);
    if es.len() == 0 {
        st
    } else {
        (n, set_all(st.1, n, es))
    }
}

/// The reader's state after it has read the sections of `m` named in `order`.
pub open spec fn read_sections(st: (Seq<char>, IniModel), m: IniModel, order: Seq<Seq<char>>) -> (
    Seq<char>,
    IniModel,
)
    decreases order.len(),
{
    if order.len() == 0 {
        st
    } else {
        read_section(read_sections(st, m, order.drop_last()), m, order.last())
    }
}

proof fn lemma_read_line(l: Seq<char>, rest: Seq<char>, acc: Seq<char>, st: (Seq<char>, IniModel))
    requires
        !has_char(l, '\n'),
    ensures
        parse_chars(l + seq!['\n'] + rest, acc, st) == parse_chars(rest, seq![], parse_line(st, acc + l)),
    decreases l.len(),
{
    let s = l + seq!['\n'] + rest;
    if l.len() == 0 {
        assert(s[0] == '\n');
        assert(s.drop_first() == rest);
        assert(acc + l == acc);
    } else {
        assert(s[0] == l[0]);
        assert(l[0] != '\n');
        let l2 = l.drop_first();
        assert(s.drop_first() == l2 + seq!['\n'] + rest);
        assert(!has_char(l2, '\n')) by {
            if has_char(l2, '\n') {
                let i = choose|i: int| 0 <= i < l2.len() && l2[i] == '\n';
                assert(l[i + 1] == '\n');
            }
        }
        lemma_read_line(l2, rest, acc.push(l[0]), st);
        assert(acc.push(l[0]) + l2 == acc + l);
    }
}

proof fn lemma_trim_clean(s: Seq<char>)
    requires
        s.len() > 0,
        !is_ws(s[0]),
        !is_ws(s.last()),
    ensures
        trim(s) == s,
{
    assert(trim_start(s) == s);
}

proof fn lemma_read_entry(k: Seq<char>, v: Seq<char>, n: Seq<char>, x: IniModel)
    requires
        clean_entry((k, v)),
    ensures
        parse_line((n, x), k + seq!['='] + v) == (n, spec_set(x, n, k, v)),
{
    let line = k + seq!['='] + v;
    assert(line[k.len() as int] == '=');
    if k.len() > 0 {
        assert(line[0] == k[0]);
    }
    if v.len() > 0 {
        assert(line.last() == v.last());
    }
    lemma_trim_clean(line);
    assert forall|j: int| 0 <= j < k.len() implies line[j] != '=' by {
        assert(line[j] == k[j]);
    }
    lemma_char_pos(line, '=', k.len() as int);
    assert(line.take(k.len() as int) == k);
    assert(line.skip(k.len() + 1int) == v);
}

proof fn lemma_read_entries(es: Entries, rest: Seq<char>, n: Seq<char>, x: IniModel)
    requires
        forall|j: int| 0 <= j < es.len() ==> clean_entry(#[trigger] es[j]),
    ensures
        parse_chars(render_entries(es) + rest, seq![], (n, x)) == parse_chars(
            rest,
            seq![],
            (n, set_all(x, n, es)),
        ),
    decreases es.len(),
{
    if es.len() == 0 {
        assert(render_entries(es) + rest == rest);
    } else {
        let dl = es.drop_last();
        let (k, v) = es.last();
        assert(clean_entry(es[es.len() - 1]));
        let line = k + seq!['='] + v;
        let rest2 = line + seq!['\n'] + rest;
        assert(render_entries(es) + rest =~= render_entries(dl) + rest2);
        assert forall|j: int| 0 <= j < dl.len() implies clean_entry(#[trigger] dl[j]) by {
            assert(dl[j] == es[j]);
        }
        lemma_read_entries(dl, rest2, n, x);
        assert(!has_char(line, '\n')) by {
            if has_char(line, '\n') {
                let i = choose|i: int| 0 <= i < line.len() && line[i] == '\n';
                if i < k.len() {
                    assert(k[i] == '\n');
                } else if i > k.len() {
                    assert(v[i - k.len() - 1] == '\n');
                }
            }
        }
        lemma_read_line(line, rest, seq![], (n, set_all(x, n, dl)));
        assert(Seq::<char>::empty() + line == line);
        lemma_read_entry(k, v, n, set_all(x, n, dl));
    }
}

proof fn lemma_read_section(m: IniModel, n: Seq<char>, rest: Seq<char>, st: (Seq<char>, IniModel))
    requires
        clean_model(m),
        has_section(m, n),
    ensures
        parse_chars(render_section(n, entries_of(m, n)) + rest, seq![], st) == parse_chars(
            rest,
            seq![],
            read_section(st, m, n),
        ),
{
    lemma_pos_of_found(m, n);
    let k = choose|k: int| 0 <= k < m.len() && m[k].0 == n;
    assert(pos_of(m, n) <= k);
    let i = pos_of(m, n) as int;
    let es = entries_of(m, n);
    assert(es == m[i].1);
    if es.len() == 0 {
        assert(render_section(n, es) + rest == rest);
    } else {
        assert(clean_name(m[i].0));
        let body = render_entries(es) + rest;
        assert(render_section(n, es) + rest =~= Seq::<char>::empty() + seq!['\n'] + (n + seq!['\n']
            + body));
        lemma_read_line(Seq::<char>::empty(), n + seq!['\n'] + body, seq![], st);
        assert(trim(Seq::<char>::empty()) =~= Seq::<char>::empty());
        assert(parse_line(st, Seq::<char>::empty() + Seq::<char>::empty()) == st);
        lemma_read_line(n, body, seq![], st);
        assert(Seq::<char>::empty() + n == n);
        assert(parse_line(st, n) == (n, st.1));
        assert forall|j: int| 0 <= j < es.len() implies clean_entry(#[trigger] es[j]) by {
            assert(es[j] == m[i].1[j]);
        }
        lemma_read_entries(es, rest, n, st.1);
    }
}

proof fn lemma_read_rendered(m: IniModel, order: Seq<Seq<char>>, rest: Seq<char>, st: (Seq<char>, IniModel))
    requires
        clean_model(m),
        forall|j: int| 0 <= j < order.len() ==> has_section(m, #[trigger] order[j]),
    ensures
        parse_chars(render(m, order) + rest, seq![], st) == parse_chars(
            rest,
            seq![],
            read_sections(st, m, order),
        ),
    decreases order.len(),
{
    if order.len() == 0 {
        assert(render(m, order) + rest == rest);
    } else {
        let dl = order.drop_last();
        let n = order.last();
        assert(has_section(m, order[order.len() - 1]));
        let rest2 = render_section(n, entries_of(m, n)) + rest;
        assert(render(m, order) + rest =~= render(m, dl) + rest2);
        assert forall|j: int| 0 <= j < dl.len() implies has_section(m, #[trigger] dl[j]) by {
            assert(dl[j] == order[j]);
        }
        lemma_read_rendered(m, dl, rest2, st);
        lemma_read_section(m, n, rest, read_sections(st, m, dl));
    }
}

/// Setting the entries `es`, whose keys differ, in section `n` gives each of
/// their keys its value and leaves every other key as it was.
proof fn lemma_get_set_all(x: IniModel, n: Seq<char>, es: Entries, s: Seq<char>, k: Seq<char>)
    requires
        model_wf(x),
        distinct_keys(es),
    ensures
        model_wf(set_all(x, n, es)),
        spec_get(set_all(x, n, es), s, k) == if s == n && pos_of(es, k) < es.len() {
            Some(es[pos_of(es, k) as int].1)
        } else {
            spec_get(x, s, k)
        },
    decreases es.len(),
{
    if es.len() > 0 {
        let dl = es.drop_last();
        let (kl, vl) = es.last();
        assert(distinct_keys(dl)) by {
            assert forall|a: int, b: int| 0 <= a < b < dl.len() implies dl[a].0 != dl[b].0 by {
                assert(dl[a] == es[a] && dl[b] == es[b]);
            }
        }
        lemma_get_set_all(x, n, dl, s, k);
        lemma_set_wf(set_all(x, n, dl), n, kl, vl);
        lemma_get_after_set(set_all(x, n, dl), n, kl, vl, s, k);
        assert(es == dl.push(es.last()));
        lemma_pos_of_push(dl, es.last(), k);
        if k == kl {
            lemma_pos_of_distinct(es, es.len() - 1);
        } else {
            let q = pos_of(dl, k) as int;
            if q < dl.len() {
                assert(es[q] == dl[q]);
            }
        }
    }
}

/// The order in which sections are written names each section of the model once.
proof fn lemma_order_covers(m: IniModel, order: Seq<Seq<char>>)
    requires
        section_order(m, order),
    ensures
        forall|a: int, b: int| 0 <= a < b < order.len() ==> order[a] != order[b],
        forall|x: Seq<char>| order.contains(x) <==> has_section(m, x),
{
    let p = present_preferred(m);
    let r = order.skip(p.len() as int);
    reveal_strlit("[.ShellClassInfo]");
    reveal_strlit("[{F29F85E0-4FF9-1068-AB91-08002B27B3D9}]");
    assert(shell_section() != property_section()) by {
        assert(shell_section().len() != property_section().len());
    }
    assert(order =~= p + r);
    assert forall|a: int, b: int| 0 <= a < b < order.len() implies order[a] != order[b] by {
        if b < p.len() {
            assert(p[a] != p[b]);
        } else if a < p.len() {
            assert(is_preferred(order[a]));
            assert(r.contains(order[b])) by {
                assert(r[b - p.len()] == order[b]);
            }
        } else {
            assert(order[a] == r[a - p.len()] && order[b] == r[b - p.len()]);
            assert(seq_less(order[a], order[b]));
            if order[a] == order[b] {
                lemma_less_irreflexive(order[a]);
            }
        }
    }
    assert forall|x: Seq<char>| order.contains(x) <==> has_section(m, x) by {
        if order.contains(x) {
            let j = choose|j: int| 0 <= j < order.len() && order[j] == x;
            if j >= p.len() {
                assert(r[j - p.len()] == x);
                assert(r.contains(x));
                assert(has_section(m, x));
            } else {
                assert(p[j] == x);
                let hs = has_section(m, shell_section());
                let hp = has_section(m, property_section());
                if hs && hp {
                    assert(p =~= seq![shell_section(), property_section()]);
                    assert(x == shell_section() || x == property_section());
                } else if hs {
                    assert(p =~= seq![shell_section()]);
                    assert(x == shell_section());
                } else if hp {
                    assert(p =~= seq![property_section()]);
                    assert(x == property_section());
                } else {
                    assert(p =~= Seq::<Seq<char>>::empty());
                }
            }
            assert(has_section(m, x));
        }
        if has_section(m, x) {
            if is_preferred(x) {
                if x == shell_section() {
                    assert(p[0] == x);
                    assert(order[0] == x);
                } else {
                    assert(p[p.len() - 1] == x);
                    assert(order[p.len() - 1] == x);
                }
            } else {
                assert(r.contains(x));
                let j = choose|j: int| 0 <= j < r.len() && r[j] == x;
                assert(order[j + p.len()] == x);
            }
            assert(order.contains(x));
        }
    }
}

proof fn lemma_lookup_read(m: IniModel, order: Seq<Seq<char>>, t: int, s: Seq<char>, k: Seq<char>)
    requires
        model_wf(m),
        0 <= t <= order.len(),
        forall|a: int, b: int| 0 <= a < b < order.len() ==> order[a] != order[b],
        forall|j: int| 0 <= j < order.len() ==> has_section(m, #[trigger] order[j]),
    ensures
        model_wf(read_sections((seq![], seq![]), m, order.take(t)).1),
        spec_get(read_sections((seq![], seq![]), m, order.take(t)).1, s, k) == if order.take(
            t,
        ).contains(s) {
            spec_get(m, s, k)
        } else {
            None
        },
    decreases t,
{
    let init: (Seq<char>, IniModel) = (seq![], seq![]);
    if t == 0 {
        assert(order.take(0) =~= Seq::<Seq<char>>::empty());
        assert(pos_of(Seq::<(Seq<char>, Entries)>::empty(), s) == 0);
    } else {
        let pre = order.take(t - 1);
        let n = order[t - 1];
        assert(order.take(t).drop_last() == pre);
        assert(order.take(t).last() == n);
        lemma_lookup_read(m, order, t - 1, s, k);
        lemma_lookup_read(m, order, t - 1, n, k);
        let x = read_sections(init, m, pre).1;
        let es = entries_of(m, n);
        assert(has_section(m, order[t - 1]));
        lemma_pos_of_found(m, n);
        let w = choose|w: int| 0 <= w < m.len() && m[w].0 == n;
        assert(pos_of(m, n) <= w);
        let i = pos_of(m, n) as int;
        assert(es == m[i].1);
        assert(distinct_keys(m[i].1));
        assert(!pre.contains(n)) by {
            if pre.contains(n) {
                let j = choose|j: int| 0 <= j < pre.len() && pre[j] == n;
                assert(order[j] == order[t - 1]);
            }
        }
        assert(order.take(t).contains(s) <==> pre.contains(s) || s == n) by {
            if order.take(t).contains(s) {
                let j = choose|j: int| 0 <= j < t && order.take(t)[j] == s;
                if j < t - 1 {
                    assert(pre[j] == s);
                }
            }
            if pre.contains(s) {
                let j = choose|j: int| 0 <= j < pre.len() && pre[j] == s;
                assert(order.take(t)[j] == s);
            }
            if s == n {
                assert(order.take(t)[t - 1] == s);
            }
        }
        if es.len() > 0 {
            lemma_get_set_all(x, n, es, s, k);
        }
    }
}

/// What reading gives back of what was written: the text of an ini file, read
/// again, gives every key of every section the value that it had, provided that
/// each section name and entry reads back as itself (`clean_model`). A file
/// with keys in the section with the empty name, which comes before any header,
/// is one where this fails.
pub proof fn lemma_read_back(m: IniModel, order: Seq<Seq<char>>, s: Seq<char>, k: Seq<char>)
    requires
        model_wf(m),
        clean_model(m),
        section_order(m, order),
    ensures
        spec_get(spec_parse_text(render(m, order)), s, k) == spec_get(m, s, k),
{
    let init: (Seq<char>, IniModel) = (seq![], seq![]);
    lemma_order_covers(m, order);
    assert forall|j: int| 0 <= j < order.len() implies has_section(m, #[trigger] order[j]) by {
        assert(order.contains(order[j]));
    }
    lemma_read_rendered(m, order, seq![], init);
    assert(render(m, order) + Seq::<char>::empty() == render(m, order));
    let fin = read_sections(init, m, order);
    assert(trim(Seq::<char>::empty()) =~= Seq::<char>::empty());
    assert(parse_chars(Seq::<char>::empty(), seq![], fin) == fin);
    lemma_lookup_read(m, order, order.len() as int, s, k);
    assert(order.take(order.len() as int) == order);
    if !order.contains(s) {
        assert(!has_section(m, s));
        lemma_pos_of_found(m, s);
        if pos_of(m, s) < m.len() {
            assert(m[pos_of(m, s) as int].0 == s);
        }
    }
}


/// The same law, stated of the text that `Ini::to_text` gives: reading it
/// gives every key of every section the value that it had in the written
/// contents, where those read back as themselves.
pub proof fn lemma_read_back_text(m: IniModel, text: Seq<char>, s: Seq<char>, k: Seq<char>)
    requires
        model_wf(m),
        clean_model(m),
        exists|order: Seq<Seq<char>>| section_order(m, order) && text == render(m, order),
    ensures
        spec_get(spec_parse_text(text), s, k) == spec_get(m, s, k),
{
    let order = choose|order: Seq<Seq<char>>| section_order(m, order) && text == render(m, order);
    lemma_read_back(m, order, s, k);
}

/// A comment line changes nothing in the reader's state, wherever it stands.
proof fn lemma_skip_comment(
    a: Seq<char>,
    c: Seq<char>,
    b: Seq<char>,
    acc: Seq<char>,
    st: (Seq<char>, IniModel),
)
    requires
        (a.len() == 0 && acc.len() == 0) || (a.len() > 0 && a.last() == '\n'),
        !has_char(c, '\n'),
        trim(c).len() > 0,
        trim(c)[0] == '#',
    ensures
        parse_chars(a + c + seq!['\n'] + b, acc, st) == parse_chars(a + b, acc, st),
    decreases a.len(),
{
    let s1 = a + c + seq!['\n'] + b;
    let s2 = a + b;
    if a.len() == 0 {
        assert(s1 =~= c + seq!['\n'] + b);
        assert(s2 =~= b);
        assert(acc =~= Seq::<char>::empty());
        lemma_read_line(c, b, acc, st);
        assert(acc + c =~= c);
        assert(parse_line(st, acc + c) == st);
        assert(parse_chars(s1, acc, st) == parse_chars(s2, acc, st));
    } else {
        let a2 = a.drop_first();
        assert(s1[0] == a[0] && s2[0] == a[0]);
        assert(s1.drop_first() =~= a2 + c + seq!['\n'] + b);
        assert(s2.drop_first() =~= a2 + b);
        if a[0] == '\n' {
            if a2.len() > 0 {
                assert(a2.last() == a.last());
            }
            lemma_skip_comment(a2, c, b, seq![], parse_line(st, acc));
            assert(parse_chars(s1, acc, st) == parse_chars(s1.drop_first(), seq![], parse_line(st, acc)));
            assert(parse_chars(s2, acc, st) == parse_chars(s2.drop_first(), seq![], parse_line(st, acc)));
            assert(parse_chars(s1, acc, st) == parse_chars(s2, acc, st));
        } else {
            assert(a2.len() > 0) by {
                if a2.len() == 0 {
                    assert(a.last() == a[0]);
                }
            }
            assert(a2.last() == a.last());
            lemma_skip_comment(a2, c, b, acc.push(a[0]), st);
            assert(parse_chars(s1, acc, st) == parse_chars(s1.drop_first(), acc.push(a[0]), st));
            assert(parse_chars(s2, acc, st) == parse_chars(s2.drop_first(), acc.push(a[0]), st));
            assert(parse_chars(s1, acc, st) == parse_chars(s2, acc, st));
        }
    }
}

/// Comment lines are skipped: a line whose trimmed text starts with `#`,
/// wherever it stands in a file, leaves what the file holds as it is without
/// that line (the current section included).
pub proof fn lemma_comment_line_skipped(a: Seq<char>, c: Seq<char>, b: Seq<char>)
    requires
        a.len() == 0 || a.last() == '\n',
        !has_char(c, '\n'),
        trim(c).len() > 0,
        trim(c)[0] == '#',
    ensures
        spec_parse_text(a + c + seq!['\n'] + b) == spec_parse_text(a + b),
        parse_chars(a + c + seq!['\n'] + b, seq![], (seq![], seq![])) == parse_chars(
            a + b,
            seq![],
            (seq![], seq![]),
        ),
{
    lemma_skip_comment(a, c, b, seq![], (seq![], seq![]));
}

} // verus!
