//! What removing a freshly set key undoes: every value, and the written text.
use vstd::prelude::*;
use crate::format::{
    entries_of, has_section, is_preferred, lemma_less_irreflexive, lemma_section_order_unique,
    present_preferred, property_section, render, render_section, section_order, seq_less,
    shell_section, strictly_sorted,
};
use crate::ini::{
    lemma_get_after_remove, lemma_get_after_set, lemma_pos_of, lemma_pos_of_found, lemma_pos_of_push,
    lemma_pos_of_update, lemma_set_wf, model_wf, pos_of, spec_get, spec_remove, spec_set, Entries,
    IniModel,
};

verus! {

/// Leaving out a section that holds no entries does not change the text.
proof fn lemma_render_without_empty(m: IniModel, o: Seq<Seq<char>>, u: int)
    requires
        0 <= u < o.len(),
        entries_of(m, o[u]).len() == 0,
    ensures
        render(m, o.remove(u)) == render(m, o),
    decreases o.len(),
{
    let d = o.drop_last();
    if u == o.len() - 1 {
        assert(o.remove(u) =~= d);
        assert(render_section(o.last(), entries_of(m, o.last())) =~= Seq::<char>::empty());
        assert(render(m, o) =~= render(m, d));
    } else {
        assert(o.remove(u).drop_last() =~= d.remove(u));
        assert(o.remove(u).last() == o.last());
        assert(d[u] == o[u]);
        lemma_render_without_empty(m, d, u);
    }
}

/// Two models whose sections named in `o` hold the same entries are written
/// alike in that order.
proof fn lemma_render_alike(m1: IniModel, m2: IniModel, o: Seq<Seq<char>>)
    requires
        forall|j: int| 0 <= j < o.len() ==> entries_of(m1, #[trigger] o[j]) == entries_of(m2, o[j]),
    ensures
        render(m1, o) == render(m2, o),
    decreases o.len(),
{
    if o.len() > 0 {
        let d = o.drop_last();
        assert forall|j: int| 0 <= j < d.len() implies entries_of(m1, #[trigger] d[j]) == entries_of(m2, d[j]) by {
            assert(d[j] == o[j]);
        }
        lemma_render_alike(m1, m2, d);
        assert(entries_of(m1, o[o.len() - 1]) == entries_of(m2, o[o.len() - 1]));
    }
}

/// A strictly sorted list holds each string once.
proof fn lemma_sorted_distinct(r: Seq<Seq<char>>, a: int, b: int)
    requires
        strictly_sorted(r),
        0 <= a < r.len(),
        0 <= b < r.len(),
        r[a] == r[b],
    ensures
        a == b,
{
    if a < b || b < a {
        lemma_less_irreflexive(r[a]);
    }
}

/// Removing one string keeps a strictly sorted list sorted, and takes out that
/// string alone.
proof fn lemma_sorted_remove(r: Seq<Seq<char>>, t: int)
    requires
        strictly_sorted(r),
        0 <= t < r.len(),
    ensures
        strictly_sorted(r.remove(t)),
        forall|x: Seq<char>| #[trigger] r.remove(t).contains(x) <==> r.contains(x) && x != r[t],
{
    let q = r.remove(t);
    assert forall|a: int, b: int| 0 <= a < b < q.len() implies seq_less(q[a], q[b]) by {
        let a2 = if a < t { a } else { a + 1 };
        let b2 = if b < t { b } else { b + 1 };
        assert(q[a] == r[a2] && q[b] == r[b2]);
    }
    assert forall|x: Seq<char>| #[trigger] q.contains(x) <==> r.contains(x) && x != r[t] by {
        if q.contains(x) {
            let a = choose|a: int| 0 <= a < q.len() && q[a] == x;
            let a2 = if a < t { a } else { a + 1 };
            assert(r[a2] == x);
            if x == r[t] {
                lemma_sorted_distinct(r, a2, t);
            }
        }
        if r.contains(x) && x != r[t] {
            let a = choose|a: int| 0 <= a < r.len() && r[a] == x;
            if a < t {
                assert(q[a] == x);
            } else {
                assert(q[a - 1] == x);
            }
        }
    }
}

/// The sections of `m` with one named `s` added.
proof fn lemma_has_added(m: IniModel, s: Seq<char>, x: Seq<char>)
    ensures
        has_section(m.push((s, Seq::<(Seq<char>, Seq<char>)>::empty())), x) == (has_section(m, x) || x == s),
{
    let m2 = m.push((s, Seq::<(Seq<char>, Seq<char>)>::empty()));
    if has_section(m, x) {
        let i = choose|i: int| 0 <= i < m.len() && #[trigger] m[i].0 == x;
        assert(m2[i].0 == x);
    }
    if x == s {
        assert(m2[m.len() as int].0 == x);
    }
    if has_section(m2, x) && x != s {
        let i = choose|i: int| 0 <= i < m2.len() && #[trigger] m2[i].0 == x;
        assert(i < m.len());
        assert(m[i].0 == x);
    }
}

/// The two sections written first have different names.
proof fn lemma_preferred_differ()
    ensures
        shell_section() != property_section(),
{
    reveal_strlit("[.ShellClassInfo]");
    reveal_strlit("[{F29F85E0-4FF9-1068-AB91-08002B27B3D9}]");
    assert(shell_section()[1] != property_section()[1]);
}

/// The case of `lemma_order_without_added` where `s` is not written first.
proof fn lemma_order_without_other(m: IniModel, s: Seq<char>, o2: Seq<Seq<char>>) -> (u: int)
    requires
        !has_section(m, s),
        !is_preferred(s),
        section_order(m.push((s, Seq::<(Seq<char>, Seq<char>)>::empty())), o2),
    ensures
        0 <= u < o2.len(),
        o2[u] == s,
        section_order(m, o2.remove(u)),
{
    let m2 = m.push((s, Seq::<(Seq<char>, Seq<char>)>::empty()));
    let p = present_preferred(m);
    lemma_has_added(m, s, shell_section());
    lemma_has_added(m, s, property_section());
    assert(present_preferred(m2) == p);
    let r2 = o2.skip(p.len() as int);
    lemma_has_added(m, s, s);
    assert(r2.contains(s));
    let t = choose|t: int| 0 <= t < r2.len() && r2[t] == s;
    lemma_sorted_remove(r2, t);
    let u = p.len() + t;
    assert(o2 =~= p + r2);
    let q = o2.remove(u);
    assert(q =~= p + r2.remove(t));
    assert(q.take(p.len() as int) =~= p);
    assert(q.skip(p.len() as int) =~= r2.remove(t));
    assert forall|x: Seq<char>| #[trigger] q.skip(p.len() as int).contains(x) <==> has_section(m, x)
        && !is_preferred(x) by {
        lemma_has_added(m, s, x);
    }
    u
}

/// The case of `lemma_order_without_added` where `s` is written first.
proof fn lemma_order_without_preferred(m: IniModel, s: Seq<char>, o2: Seq<Seq<char>>) -> (u: int)
    requires
        !has_section(m, s),
        is_preferred(s),
        section_order(m.push((s, Seq::<(Seq<char>, Seq<char>)>::empty())), o2),
    ensures
        0 <= u < o2.len(),
        o2[u] == s,
        section_order(m, o2.remove(u)),
{
    let m2 = m.push((s, Seq::<(Seq<char>, Seq<char>)>::empty()));
    let p = present_preferred(m);
    let p2 = present_preferred(m2);
    lemma_preferred_differ();
    lemma_has_added(m, s, shell_section());
    lemma_has_added(m, s, property_section());
    let r2 = o2.skip(p2.len() as int);
    assert(o2 =~= p2 + r2);
    let u: int = if s == shell_section() {
        assert(p2 =~= seq![s] + p);
        0
    } else {
        assert(p2 =~= p + seq![s]);
        p.len() as int
    };
    let q = o2.remove(u);
    assert(q =~= p + r2);
    assert(q.take(p.len() as int) =~= p);
    assert(q.skip(p.len() as int) =~= r2);
    assert forall|x: Seq<char>| #[trigger] r2.contains(x) <==> has_section(m, x) && !is_preferred(x) by {
        lemma_has_added(m, s, x);
    }
    u
}

/// A section `s` that `m` does not have, added without entries: the order in
/// which the new model is written, without `s`, is the order of `m`.
proof fn lemma_order_without_added(m: IniModel, s: Seq<char>, o2: Seq<Seq<char>>) -> (u: int)
    requires
        !has_section(m, s),
        section_order(m.push((s, Seq::<(Seq<char>, Seq<char>)>::empty())), o2),
    ensures
        0 <= u < o2.len(),
        o2[u] == s,
        section_order(m, o2.remove(u)),
{
    if is_preferred(s) {
        lemma_order_without_preferred(m, s, o2)
    } else {
        lemma_order_without_other(m, s, o2)
    }
}

/// Removing a key just set where it was not there before undoes the setting:
/// the removal gives back the value that was set, every key of every section
/// has the value that it had, and the file is written with the same text
/// (the same section headers, entries and order).
pub proof fn lemma_remove_after_set(
    m: IniModel,
    s: Seq<char>,
    k: Seq<char>,
    v: Seq<char>,
    o: Seq<Seq<char>>,
    o2: Seq<Seq<char>>,
)
    requires
        model_wf(m),
        spec_get(m, s, k) is None,
        section_order(m, o),
        section_order(spec_remove(spec_set(m, s, k, v), s, k), o2),
    ensures
        spec_get(spec_set(m, s, k, v), s, k) == Some(v),
        forall|s2: Seq<char>, k2: Seq<char>|
            #[trigger] spec_get(spec_remove(spec_set(m, s, k, v), s, k), s2, k2) == spec_get(m, s2, k2),
        render(spec_remove(spec_set(m, s, k, v), s, k), o2) == render(m, o),
{
    let m1 = spec_set(m, s, k, v);
    let m2 = spec_remove(m1, s, k);
    lemma_set_wf(m, s, k, v);
    lemma_get_after_set(m, s, k, v, s, k);
    assert forall|s2: Seq<char>, k2: Seq<char>| #[trigger] spec_get(m2, s2, k2) == spec_get(m, s2, k2) by {
        lemma_get_after_set(m, s, k, v, s2, k2);
        lemma_get_after_remove(m1, s, k, s2, k2);
    }
    lemma_pos_of_found(m, s);
    let i = pos_of(m, s) as int;
    if i < m.len() {
        let es = m[i].1;
        lemma_pos_of_found(es, k);
        assert(pos_of(es, k) == es.len());
        let es1 = es.push((k, v));
        assert(m1 == m.update(i, (s, es1)));
        lemma_pos_of_update(m, i, (s, es1), s);
        assert(m1[i].1 == es1);
        lemma_pos_of_push(es, (k, v), k);
        assert(es1.remove(es.len() as int) =~= es);
        assert(m2 == m1.update(i, (s, es)));
        assert(m2 =~= m);
        lemma_section_order_unique(m, o, o2);
    } else {
        let e: Entries = Seq::empty();
        let es1: Entries = seq![(k, v)];
        assert(m1 == m.push((s, es1)));
        lemma_pos_of_push(m, (s, es1), s);
        lemma_pos_of(es1, k, 0);
        assert(es1.remove(0) =~= e);
        assert(m2 =~= m.push((s, e)));
        assert(!has_section(m, s)) by {
            if has_section(m, s) {
                let j = choose|j: int| 0 <= j < m.len() && #[trigger] m[j].0 == s;
                assert(m[j].0 == s);
            }
        }
        let u = lemma_order_without_added(m, s, o2);
        let q = o2.remove(u);
        lemma_section_order_unique(m, o, q);
        lemma_pos_of_push(m, (s, e), s);
        assert(entries_of(m2, o2[u]).len() == 0);
        lemma_render_without_empty(m2, o2, u);
        assert forall|j: int| 0 <= j < q.len() implies entries_of(m2, #[trigger] q[j]) == entries_of(m, q[j]) by {
            let x = q[j];
            assert(o.contains(x));
            assert(has_section(m, x)) by {
                let p = present_preferred(m);
                if j >= p.len() {
                    assert(o.skip(p.len() as int)[j - p.len()] == x);
                    assert(o.skip(p.len() as int).contains(x));
                } else {
                    assert(p[j] == x);
                }
            }
            assert(x != s);
            lemma_pos_of_push(m, (s, e), x);
            lemma_pos_of_found(m, x);
        }
        lemma_render_alike(m2, m, q);
    }
}

} // verus!
