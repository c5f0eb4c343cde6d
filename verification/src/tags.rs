//! The tags of a folder, kept in the `Prop5` property as `31,` followed by the
//! tags separated by `;`.
use vstd::prelude::*;
use crate::format::property_section;
use crate::ini::{model_wf, lemma_get_after_set, spec_get, spec_remove, spec_set, Ini, IniModel};
use crate::text::{
    char_pos, chars_of, find_char, has_char, lemma_char_pos, lemma_trim_idempotent, lemma_trim_sub,
    push_char, push_chars, string_of, sub_chars, trim, trim_chars, trim_end, trim_start, views,
};

verus! {

/// The pieces of `s` between the separators `sep`, as `str::split` gives them:
/// one more than there are separators, empty ones included.
pub open spec fn split_on(s: Seq<char>, sep: char) -> Seq<Seq<char>>
    decreases s.len(),
{
    if s.len() == 0 {
        seq![seq![]]
    } else {
        let p = split_on(s.drop_last(), sep);
        if s.last() == sep {
            p.push(seq![])
        } else {
            p.update(p.len() - 1, p.last().push(s.last()))
        }
    }
}

/// `parts` joined with `sep` between each two, as `join` gives them.
pub open spec fn join_with(parts: Seq<Seq<char>>, sep: char) -> Seq<char>
    decreases parts.len(),
{
    if parts.len() == 0 {
        seq![]
    } else if parts.len() == 1 {
        parts[0]
    } else {
        join_with(parts.drop_last(), sep) + seq![sep] + parts.last()
    }
}

/// The tags that a `Prop5` value holds: where the text before its first comma
/// is `31` (after trimming), the pieces after that comma, each trimmed.
pub open spec fn tags_of(value: Seq<char>) -> Option<Seq<Seq<char>>> {
    let i = char_pos(value, ',');
    if i < value.len() && trim(value.take(i as int)) == seq!['3', '1'] {
        Some(split_on(value.skip(i + 1int), ';').map_values(|t: Seq<char>| trim(t)))
    } else {
        None
    }
}

/// The tags of an ini file; `None` where it has no `Prop5`, or one that is not
/// of the form `31,...`.
pub open spec fn spec_tags(m: IniModel) -> Option<Seq<Seq<char>>> {
    match spec_get(m, property_section(), "Prop5"@) {
        Some(v) => tags_of(v),
        None => None,
    }
}

/// The string views of a sequence of string slices.
pub open spec fn str_views(v: Seq<&str>) -> Seq<Seq<char>> {
    v.map_values(|s: &str| s@)
}

/// The `Prop5` value that holds `tags`.
pub open spec fn tags_value(tags: Seq<Seq<char>>) -> Seq<char> {
    seq!['3', '1', ','] + join_with(tags, ';')
}

/// The tags that adding `added` leaves: the present ones (none where there are
/// none) followed by the added ones.
pub open spec fn tags_after_add(m: IniModel, added: Seq<Seq<char>>) -> Seq<Seq<char>> {
    match spec_tags(m) {
        Some(t) => t + added,
        None => added,
    }
}

/// The tags that removing `removed` leaves: the present ones (none where there
/// are none) that are not among `removed`, in their order.
pub open spec fn tags_after_remove(m: IniModel, removed: Seq<Seq<char>>) -> Seq<Seq<char>> {
    match spec_tags(m) {
        Some(t) => t.filter(|x: Seq<char>| !removed.contains(x)),
        None => seq![],
    }
}

pub(crate) proof fn lemma_split_nonempty(s: Seq<char>, sep: char)
    ensures
        split_on(s, sep).len() >= 1,
    decreases s.len(),
{
    if s.len() > 0 {
        lemma_split_nonempty(s.drop_last(), sep);
    }
}

/// Splits `s` at each `sep` and trims the pieces.
pub(crate) fn split_trimmed(s: &[char], sep: char) -> (pieces: Vec<String>)
    ensures
        views(pieces@) == split_on(s@, sep).map_values(|t: Seq<char>| trim(t)),
{
    let mut pieces: Vec<String> = Vec::new();
    let mut cur: Vec<char> = Vec::new();
    let ghost mut raw: Seq<Seq<char>> = seq![];
    let mut i: usize = 0;
    assert(s@.take(0) =~= Seq::<char>::empty());
    assert(views(pieces@) =~= raw.map_values(|t: Seq<char>| trim(t)));
    while i < s.len()
        invariant
            i <= s@.len(),
            split_on(s@.take(i as int), sep) == raw.push(cur@),
            views(pieces@) == raw.map_values(|t: Seq<char>| trim(t)),
        decreases s@.len() - i,
    {
        let ghost t = s@.take(i + 1);
        assert(t.drop_last() =~= s@.take(i as int));
        assert(t.last() == s@[i as int]);
        if s[i] == sep {
            let tc = trim_chars(&cur);
            let ghost before = views(pieces@);
            pieces.push(string_of(&tc));
            assert(views(pieces@) =~= before.push(trim(cur@)));
            proof {
                raw = raw.push(cur@);
            }
            cur = Vec::new();
            assert(views(pieces@) =~= raw.map_values(|t: Seq<char>| trim(t)));
            assert(cur@ =~= Seq::<char>::empty());
        } else {
            let ghost old_raw = raw;
            let ghost old_cur = cur@;
            cur.push(s[i]);
            assert(old_raw.push(old_cur).update(old_raw.len() as int, old_cur.push(s@[i as int])) =~= raw.push(cur@));
        }
        i += 1;
    }
    assert(s@.take(s@.len() as int) == s@);
    let tc = trim_chars(&cur);
    let ghost before = views(pieces@);
    pieces.push(string_of(&tc));
    assert(views(pieces@) =~= before.push(trim(cur@)));
    assert(views(pieces@) =~= raw.push(cur@).map_values(|t: Seq<char>| trim(t)));
    pieces
}

/// Appends `parts`, separated by `sep`, to `out`.
fn push_joined(out: &mut String, parts: &[String], sep: char)
    ensures
        final(out)@ == old(out)@ + join_with(views(parts@), sep),
{
    let ghost start = out@;
    let mut i: usize = 0;
    assert(views(parts@.take(0)) =~= Seq::<Seq<char>>::empty());
    while i < parts.len()
        invariant
            i <= parts@.len(),
            out@ == start + join_with(views(parts@.take(i as int)), sep),
        decreases parts@.len() - i,
    {
        let ghost prefix = views(parts@.take(i as int));
        assert(views(parts@.take(i + 1)) =~= prefix.push(parts@[i as int]@));
        assert(views(parts@.take(i + 1)).drop_last() =~= prefix);
        if i > 0 {
            push_char(out, sep);
        }
        let cs = chars_of(parts[i].as_str());
        push_chars(out, &cs);
        assert(out@ =~= start + join_with(views(parts@.take(i + 1)), sep));
        i += 1;
    }
    assert(parts@.take(parts@.len() as int) == parts@);
}

/// The `Prop5` value that holds `tags`.
fn make_tags_value(tags: &[String]) -> (value: String)
    ensures
        value@ == tags_value(views(tags@)),
{
    let mut out = String::new();
    push_char(&mut out, '3');
    push_char(&mut out, '1');
    push_char(&mut out, ',');
    push_joined(&mut out, tags, ';');
    assert(out@ =~= tags_value(views(tags@)));
    out
}


/// A piece without separators splits into itself.
proof fn lemma_split_single(b: Seq<char>, sep: char)
    requires
        !has_char(b, sep),
    ensures
        split_on(b, sep) == seq![b],
    decreases b.len(),
{
    if b.len() > 0 {
        let d = b.drop_last();
        assert(!has_char(d, sep)) by {
            if has_char(d, sep) {
                let i = choose|i: int| 0 <= i < d.len() && d[i] == sep;
                assert(b[i] == sep);
            }
        }
        lemma_split_single(d, sep);
        assert(b.last() != sep) by {
            assert(b[b.len() - 1] == b.last());
        }
        assert(d.push(b.last()) == b);
        assert(seq![d].update(0, d.push(b.last())) =~= seq![b]);
    } else {
        assert(b =~= Seq::<char>::empty());
    }
}

/// A separator followed by a piece without separators adds that piece.
proof fn lemma_split_append(a: Seq<char>, b: Seq<char>, sep: char)
    requires
        !has_char(b, sep),
    ensures
        split_on(a + seq![sep] + b, sep) == split_on(a, sep).push(b),
    decreases b.len(),
{
    let s = a + seq![sep] + b;
    if b.len() == 0 {
        assert(s.drop_last() == a);
        assert(b =~= Seq::<char>::empty());
    } else {
        let d = b.drop_last();
        assert(!has_char(d, sep)) by {
            if has_char(d, sep) {
                let i = choose|i: int| 0 <= i < d.len() && d[i] == sep;
                assert(b[i] == sep);
            }
        }
        assert(s.drop_last() == a + seq![sep] + d);
        assert(s.last() == b.last());
        assert(b.last() != sep) by {
            assert(b[b.len() - 1] == b.last());
        }
        lemma_split_append(a, d, sep);
        lemma_split_nonempty(a, sep);
        assert(d.push(b.last()) == b);
        assert(split_on(a, sep).push(d).update(split_on(a, sep).len() as int, d.push(b.last())) =~= split_on(a, sep).push(b));
    }
}

/// Pieces without separators, joined with the separator, split into themselves.
pub proof fn lemma_split_join(parts: Seq<Seq<char>>, sep: char)
    requires
        parts.len() > 0,
        forall|i: int| 0 <= i < parts.len() ==> !has_char(#[trigger] parts[i], sep),
    ensures
        split_on(join_with(parts, sep), sep) == parts,
    decreases parts.len(),
{
    if parts.len() == 1 {
        lemma_split_single(parts[0], sep);
        assert(seq![parts[0]] =~= parts);
    } else {
        let d = parts.drop_last();
        assert forall|i: int| 0 <= i < d.len() implies !has_char(#[trigger] d[i], sep) by {
            assert(d[i] == parts[i]);
        }
        lemma_split_join(d, sep);
        assert(!has_char(parts[parts.len() - 1], sep));
        lemma_split_append(join_with(d, sep), parts.last(), sep);
        assert(d.push(parts.last()) =~= parts);
    }
}

/// No piece holds a separator.
pub proof fn lemma_split_pieces(s: Seq<char>, sep: char)
    ensures
        forall|i: int| 0 <= i < split_on(s, sep).len() ==> !has_char(#[trigger] split_on(s, sep)[i], sep),
    decreases s.len(),
{
    if s.len() > 0 {
        let p = split_on(s.drop_last(), sep);
        lemma_split_pieces(s.drop_last(), sep);
        lemma_split_nonempty(s.drop_last(), sep);
        if s.last() != sep {
            let q = p.update(p.len() - 1, p.last().push(s.last()));
            assert forall|i: int| 0 <= i < q.len() implies !has_char(#[trigger] q[i], sep) by {
                if i == p.len() - 1 {
                    assert(!has_char(p[p.len() - 1], sep));
                    if has_char(q[i], sep) {
                        let j = choose|j: int| 0 <= j < q[i].len() && q[i][j] == sep;
                        assert(p.last()[j] == sep);
                    }
                } else {
                    assert(q[i] == p[i]);
                }
            }
        } else {
            let q = p.push(Seq::<char>::empty());
            assert forall|i: int| 0 <= i < q.len() implies !has_char(#[trigger] q[i], sep) by {
                if i < p.len() {
                    assert(q[i] == p[i]);
                }
            }
        }
    }
}

/// A tag reads back as itself: it has no white space at its ends and no `;`.
pub open spec fn clean_tag(t: Seq<char>) -> bool {
    trim(t) == t && !has_char(t, ';')
}

/// The tags that an ini file holds are clean.
proof fn lemma_tags_clean(m: IniModel)
    ensures
        spec_tags(m) matches Some(t) ==> forall|i: int| 0 <= i < t.len() ==> clean_tag(#[trigger] t[i]),
{
    if let Some(v) = spec_get(m, property_section(), "Prop5"@) {
        if let Some(t) = tags_of(v) {
            let i0 = char_pos(v, ',');
            let pieces = split_on(v.skip(i0 + 1int), ';');
            lemma_split_pieces(v.skip(i0 + 1int), ';');
            assert forall|i: int| 0 <= i < t.len() implies clean_tag(#[trigger] t[i]) by {
                assert(t[i] == trim(pieces[i]));
                lemma_trim_idempotent(pieces[i]);
                if has_char(t[i], ';') {
                    lemma_trim_sub(pieces[i], ';');
                }
            }
        }
    }
}

/// What reading the tags gives back after they were stored: the same tags,
/// provided there is at least one and each is clean. Storing no tags at all
/// reads back as one empty tag.
pub proof fn lemma_tags_after_store(m: IniModel, tags: Seq<Seq<char>>)
    requires
        model_wf(m),
        tags.len() > 0,
        forall|i: int| 0 <= i < tags.len() ==> clean_tag(#[trigger] tags[i]),
    ensures
        spec_tags(spec_set(m, property_section(), "Prop5"@, tags_value(tags))) == Some(tags),
{
    let v = tags_value(tags);
    let m2 = spec_set(m, property_section(), "Prop5"@, v);
    lemma_get_after_set(m, property_section(), "Prop5"@, v, property_section(), "Prop5"@);
    assert(v[0] == '3' && v[1] == '1' && v[2] == ',');
    lemma_char_pos(v, ',', 2);
    assert(v.take(2) =~= seq!['3', '1']);
    assert(trim_start(seq!['3', '1']) == seq!['3', '1']);
    assert(trim_end(seq!['3', '1']) == seq!['3', '1']);
    assert(v.skip(3) =~= join_with(tags, ';'));
    assert forall|i: int| 0 <= i < tags.len() implies !has_char(#[trigger] tags[i], ';') by {
        assert(clean_tag(tags[i]));
    }
    lemma_split_join(tags, ';');
    assert(tags.map_values(|t: Seq<char>| trim(t)) =~= tags) by {
        assert forall|i: int| 0 <= i < tags.len() implies trim(#[trigger] tags[i]) == tags[i] by {
            assert(clean_tag(tags[i]));
        }
    }
}

/// Adding tags and reading them back gives the present tags followed by the
/// added ones, provided the added ones are clean and the result is not empty.
pub proof fn lemma_tags_after_add(m: IniModel, added: Seq<Seq<char>>)
    requires
        model_wf(m),
        tags_after_add(m, added).len() > 0,
        forall|i: int| 0 <= i < added.len() ==> clean_tag(#[trigger] added[i]),
    ensures
        spec_tags(spec_set(m, property_section(), "Prop5"@, tags_value(tags_after_add(m, added))))
            == Some(tags_after_add(m, added)),
{
    lemma_tags_clean(m);
    let r = tags_after_add(m, added);
    assert forall|i: int| 0 <= i < r.len() implies clean_tag(#[trigger] r[i]) by {
        if let Some(t) = spec_tags(m) {
            if i < t.len() {
                assert(r[i] == t[i]);
            } else {
                assert(r[i] == added[i - t.len()]);
            }
        } else {
            assert(r[i] == added[i]);
        }
    }
    lemma_tags_after_store(m, r);
}

/// Removing tags and reading them back gives the present tags that were not
/// removed, provided some are left.
pub proof fn lemma_tags_after_remove(m: IniModel, removed: Seq<Seq<char>>)
    requires
        model_wf(m),
        tags_after_remove(m, removed).len() > 0,
    ensures
        spec_tags(spec_set(m, property_section(), "Prop5"@, tags_value(tags_after_remove(m, removed))))
            == Some(tags_after_remove(m, removed)),
{
    lemma_tags_clean(m);
    let r = tags_after_remove(m, removed);
    if let Some(t) = spec_tags(m) {
        assert forall|i: int| 0 <= i < r.len() implies clean_tag(#[trigger] r[i]) by {
            assert(r.contains(r[i]));
            t.lemma_filter_contains_rev(|x: Seq<char>| !removed.contains(x), r[i]);
            assert(t.contains(r[i]));
            let j = choose|j: int| 0 <= j < t.len() && t[j] == r[i];
            assert(clean_tag(t[j]));
        }
    }
    lemma_tags_after_store(m, r);
}

/// Splitting at a separator splits the two sides apart.
proof fn lemma_split_concat(x: Seq<char>, y: Seq<char>, sep: char)
    ensures
        split_on(x + seq![sep] + y, sep) == split_on(x, sep) + split_on(y, sep),
    decreases y.len(),
{
    let s = x + seq![sep] + y;
    if y.len() == 0 {
        assert(s.drop_last() =~= x);
        assert(split_on(y, sep) =~= seq![Seq::<char>::empty()]);
        assert(split_on(x, sep).push(seq![]) =~= split_on(x, sep) + split_on(y, sep));
    } else {
        let d = y.drop_last();
        assert(s.drop_last() =~= x + seq![sep] + d);
        assert(s.last() == y.last());
        lemma_split_concat(x, d, sep);
        lemma_split_nonempty(d, sep);
        let a = split_on(x, sep);
        let b = split_on(d, sep);
        if y.last() == sep {
            assert((a + b).push(seq![]) =~= a + b.push(seq![]));
        } else {
            assert((a + b).update((a + b).len() - 1, (a + b).last().push(y.last())) =~= a + b.update(
                b.len() - 1,
                b.last().push(y.last()),
            ));
        }
    }
}

/// Joining two non-empty lists one after the other puts a separator between
/// their joins.
proof fn lemma_join_concat(a: Seq<Seq<char>>, b: Seq<Seq<char>>, sep: char)
    requires
        a.len() > 0,
        b.len() > 0,
    ensures
        join_with(a + b, sep) == join_with(a, sep) + seq![sep] + join_with(b, sep),
    decreases b.len(),
{
    let c = a + b;
    assert(c.drop_last() =~= a + b.drop_last());
    assert(c.last() == b.last());
    if b.len() == 1 {
        assert(c.drop_last() =~= a);
    } else {
        lemma_join_concat(a, b.drop_last(), sep);
    }
}

/// What the tags read back as after `ts` were stored: their join, split again
/// at `;` and trimmed.
proof fn lemma_tags_stored(m: IniModel, ts: Seq<Seq<char>>)
    requires
        model_wf(m),
    ensures
        spec_tags(spec_set(m, property_section(), "Prop5"@, tags_value(ts))) == Some(
            split_on(join_with(ts, ';'), ';').map_values(|t: Seq<char>| trim(t)),
        ),
{
    let v = tags_value(ts);
    lemma_get_after_set(m, property_section(), "Prop5"@, v, property_section(), "Prop5"@);
    assert(v[0] == '3' && v[1] == '1' && v[2] == ',');
    lemma_char_pos(v, ',', 2);
    assert(v.take(2) =~= seq!['3', '1']);
    assert(trim_start(seq!['3', '1']) == seq!['3', '1']);
    assert(trim_end(seq!['3', '1']) == seq!['3', '1']);
    assert(v.skip(3) =~= join_with(ts, ';'));
}

/// Tags are removed by equality: after removing `removed`, a present tag that
/// equals none of them is still read back, and a (non-empty) tag that equals
/// one of them is not.
pub proof fn lemma_remove_tags_by_equality(m: IniModel, removed: Seq<Seq<char>>, x: Seq<char>)
    requires
        model_wf(m),
    ensures
        (spec_tags(m) matches Some(t) && t.contains(x) && !removed.contains(x)) ==> (spec_tags(
            spec_set(m, property_section(), "Prop5"@, tags_value(tags_after_remove(m, removed))),
        ) matches Some(r) && r.contains(x)),
        removed.contains(x) && x.len() > 0 ==> !(spec_tags(
            spec_set(m, property_section(), "Prop5"@, tags_value(tags_after_remove(m, removed))),
        ) matches Some(r) && r.contains(x)),
{
    let pred = |y: Seq<char>| !removed.contains(y);
    let kept = tags_after_remove(m, removed);
    let m2 = spec_set(m, property_section(), "Prop5"@, tags_value(kept));
    if let Some(t) = spec_tags(m) {
        assert(kept == t.filter(pred));
        if t.contains(x) && !removed.contains(x) {
            let i = choose|i: int| 0 <= i < t.len() && t[i] == x;
            t.lemma_filter_contains(pred, i);
        }
        if kept.contains(x) {
            t.lemma_filter_contains_rev(pred, x);
        }
    }
    if kept.len() > 0 {
        lemma_tags_after_remove(m, removed);
    } else {
        lemma_tags_stored(m, kept);
        assert(join_with(kept, ';') =~= Seq::<char>::empty());
        let r = split_on(Seq::<char>::empty(), ';').map_values(|t: Seq<char>| trim(t));
        assert(trim(Seq::<char>::empty()) =~= Seq::<char>::empty());
        assert(r =~= seq![Seq::<char>::empty()]);
        if r.contains(x) {
            assert(x =~= Seq::<char>::empty());
        }
    }
}

/// Adding tags keeps the present ones: they are read back first, in their
/// order, whatever is added.
pub proof fn lemma_add_keeps_present(m: IniModel, added: Seq<Seq<char>>)
    requires
        model_wf(m),
        added.len() > 0,
    ensures
        spec_tags(m) matches Some(t0) ==> (spec_tags(
            spec_set(m, property_section(), "Prop5"@, tags_value(tags_after_add(m, added))),
        ) matches Some(t1) && t0.len() <= t1.len() && t1.take(t0.len() as int) == t0),
{
    if let Some(t0) = spec_tags(m) {
        lemma_tags_clean(m);
        let v = spec_get(m, property_section(), "Prop5"@)->0;
        let i0 = char_pos(v, ',');
        lemma_split_nonempty(v.skip(i0 + 1int), ';');
        assert(t0.len() > 0);
        let ts = t0 + added;
        assert(tags_after_add(m, added) == ts);
        lemma_tags_stored(m, ts);
        lemma_join_concat(t0, added, ';');
        lemma_split_concat(join_with(t0, ';'), join_with(added, ';'), ';');
        assert forall|i: int| 0 <= i < t0.len() implies !has_char(#[trigger] t0[i], ';') by {
            assert(clean_tag(t0[i]));
        }
        lemma_split_join(t0, ';');
        let sp = split_on(join_with(ts, ';'), ';');
        let t1 = sp.map_values(|t: Seq<char>| trim(t));
        assert(sp == t0 + split_on(join_with(added, ';'), ';'));
        assert(t1.take(t0.len() as int) =~= t0) by {
            assert forall|i: int| 0 <= i < t0.len() implies t1[i] == t0[i] by {
                assert(sp[i] == t0[i]);
                assert(clean_tag(t0[i]));
            }
        }
    }
}

impl Ini {
    /// The tags of the folder, from `Prop5`: `None` where there is no `Prop5`
    /// or it does not start with `31,`.
    pub fn tags(&self) -> (tags: Option<Vec<String>>)
        ensures
            tags matches Some(t) ==> spec_tags(self@) == Some(views(t@)),
            tags is None ==> spec_tags(self@) is None,
    {
        let value = match self.get("[{F29F85E0-4FF9-1068-AB91-08002B27B3D9}]", "Prop5") {
            Some(v) => v,
            None => return None,
        };
        let cs = chars_of(value.as_str());
        let i = find_char(&cs, ',');
        if i >= cs.len() {
            return None;
        }
        let prefix = trim_chars(&sub_chars(&cs, 0, i));
        assert(cs@.take(i as int) == cs@.subrange(0, i as int));
        if !(prefix.len() == 2 && prefix[0] == '3' && prefix[1] == '1') {
            proof {
                if prefix@ == seq!['3', '1'] {
                    assert(prefix@[0] == '3' && prefix@[1] == '1');
                }
            }
            return None;
        }
        assert(prefix@ =~= seq!['3', '1']);
        let rest = sub_chars(&cs, i + 1, cs.len());
        assert(rest@ == cs@.skip(i + 1int));
        Some(split_trimmed(&rest, ';'))
    }

    /// Stores `tags` as the folder's tags.
    pub fn set_tags(&mut self, tags: &[&str])
        requires
            old(self).wf(),
        ensures
            final(self).wf(),
            final(self)@ == spec_set(old(self)@, property_section(), "Prop5"@, tags_value(str_views(tags@))),
    {
        let mut owned: Vec<String> = Vec::new();
        let mut i: usize = 0;
        while i < tags.len()
            invariant
                i <= tags@.len(),
                views(owned@) == str_views(tags@).take(i as int),
            decreases tags@.len() - i,
        {
            let ghost before = views(owned@);
            owned.push(tags[i].to_string());
            assert(views(owned@) =~= before.push(tags@[i as int]@));
            assert(str_views(tags@).take(i + 1) =~= str_views(tags@).take(i as int).push(tags@[i as int]@));
            i += 1;
        }
        assert(str_views(tags@).take(tags@.len() as int) == str_views(tags@));
        let value = make_tags_value(&owned);
        self.set("[{F29F85E0-4FF9-1068-AB91-08002B27B3D9}]", "Prop5", value.as_str());
    }

    /// Adds `tags` after the folder's present tags.
    pub fn add_tags(&mut self, tags: &[String])
        requires
            old(self).wf(),
        ensures
            final(self).wf(),
            final(self)@ == spec_set(
                old(self)@,
                property_section(),
                "Prop5"@,
                tags_value(tags_after_add(old(self)@, views(tags@))),
            ),
    {
        let mut new_tags = match self.tags() {
            Some(t) => t,
            None => Vec::new(),
        };
        let ghost present = views(new_tags@);
        let mut i: usize = 0;
        while i < tags.len()
            invariant
                i <= tags@.len(),
                views(new_tags@) == present + views(tags@).take(i as int),
            decreases tags@.len() - i,
        {
            let ghost before = views(new_tags@);
            new_tags.push(tags[i].clone());
            assert(views(new_tags@) =~= before.push(tags@[i as int]@));
            assert(views(tags@).take(i + 1) =~= views(tags@).take(i as int).push(tags@[i as int]@));
            assert(views(new_tags@) =~= present + views(tags@).take(i + 1));
            i += 1;
        }
        assert(views(tags@).take(tags@.len() as int) == views(tags@));
        assert(views(new_tags@) =~= tags_after_add(self@, views(tags@)));
        let value = make_tags_value(&new_tags);
        self.set("[{F29F85E0-4FF9-1068-AB91-08002B27B3D9}]", "Prop5", value.as_str());
    }

    /// Removes every one of `tags` from the folder's tags.
    pub fn remove_tags(&mut self, tags: &[String])
        requires
            old(self).wf(),
        ensures
            final(self).wf(),
            final(self)@ == spec_set(
                old(self)@,
                property_section(),
                "Prop5"@,
                tags_value(tags_after_remove(old(self)@, views(tags@))),
            ),
    {
        let present = match self.tags() {
            Some(t) => t,
            None => Vec::new(),
        };
        let ghost p = views(present@);
        let ghost removed = views(tags@);
        let ghost pred = |x: Seq<char>| !removed.contains(x);
        let mut kept: Vec<String> = Vec::new();
        let mut i: usize = 0;
        assert(p.take(0) =~= Seq::<Seq<char>>::empty());
        while i < present.len()
            invariant
                i <= present@.len(),
                p == views(present@),
                removed == views(tags@),
                pred == (|x: Seq<char>| !removed.contains(x)),
                views(kept@) == p.take(i as int).filter(pred),
            decreases present@.len() - i,
        {
            reveal_with_fuel(Seq::filter, 1);
            assert(p.take(i + 1).drop_last() =~= p.take(i as int));
            let mut found = false;
            let mut j: usize = 0;
            while j < tags.len()
                invariant
                    j <= tags@.len(),
                    i < present@.len(),
                    p == views(present@),
                    removed == views(tags@),
                    found == exists|u: int| 0 <= u < j && #[trigger] removed[u] == p[i as int],
                decreases tags@.len() - j,
            {
                assert(removed[j as int] == tags@[j as int]@);
                if tags[j] == present[i] {
                    found = true;
                }
                j += 1;
            }
            assert(found == removed.contains(p[i as int]));
            if !found {
                let ghost before = views(kept@);
                kept.push(present[i].clone());
                assert(views(kept@) =~= before.push(p[i as int]));
            }
            i += 1;
        }
        assert(p.take(p.len() as int) == p);
        assert(views(kept@) == tags_after_remove(self@, removed));
        let value = make_tags_value(&kept);
        self.set("[{F29F85E0-4FF9-1068-AB91-08002B27B3D9}]", "Prop5", value.as_str());
    }

    /// Removes the folder's tags, giving back the `Prop5` value that held them.
    pub fn clear_tags(&mut self) -> (previous: Option<String>)
        requires
            old(self).wf(),
        ensures
            final(self).wf(),
            final(self)@ == spec_remove(old(self)@, property_section(), "Prop5"@),
            previous matches Some(p) ==> spec_get(old(self)@, property_section(), "Prop5"@) == Some(p@),
            previous is None ==> spec_get(old(self)@, property_section(), "Prop5"@) is None,
    {
        self.remove("[{F29F85E0-4FF9-1068-AB91-08002B27B3D9}]", "Prop5")
    }
}

} // verus!
