//! The contents of a `desktop.ini` file: sections of `key=value` entries.
use vstd::prelude::*;
use crate::format::{
    has_section, is_preferred, lemma_less_total, lemma_less_transitive, parse_chars, parse_line,
    present_preferred, property_section, section_order, seq_less, shell_section, spec_parse_text,
    render, render_entries, render_section, entries_of, str_less, strictly_sorted,
};
use crate::text::{chars_of, char_pos, find_char, string_of, sub_chars, trim, trim_chars, views};

verus! {

/// The entries of one section, in the order in which they are kept.
pub type Entries = Seq<(Seq<char>, Seq<char>)>;

/// The sections of an ini file, each with its name and its entries.
pub type IniModel = Seq<(Seq<char>, Entries)>;

/// The place of the first pair of `s` whose first part is `k`, or the length
/// of `s` where there is none.
pub open spec fn pos_of<V>(s: Seq<(Seq<char>, V)>, k: Seq<char>) -> nat
    decreases s.len(),
{
    if s.len() == 0 {
        0
    } else if s[0].0 == k {
        0
    } else {
        1 + pos_of(s.drop_first(), k)
    }
}

/// Whether no two pairs of `s` have the same first part.
pub open spec fn distinct_keys<V>(s: Seq<(Seq<char>, V)>) -> bool {
    forall|i: int, j: int| 0 <= i < j < s.len() ==> s[i].0 != s[j].0
}

/// The value that `key` has in `section`, if any.
pub open spec fn spec_get(m: IniModel, section: Seq<char>, key: Seq<char>) -> Option<Seq<char>> {
    let i = pos_of(m, section);
    if i < m.len() {
        let es = m[i as int].1;
        let j = pos_of(es, key);
        if j < es.len() {
            Some(es[j as int].1)
        } else {
            None
        }
    } else {
        None
    }
}

/// `es` with `key` set to `value`: in place where the key is there, at the end otherwise.
pub open spec fn set_entry(es: Entries, key: Seq<char>, value: Seq<char>) -> Entries {
    let j = pos_of(es, key);
    if j < es.len() {
        es.update(j as int, (key, value))
    } else {
        es.push((key, value))
    }
}

/// `m` with `key` of `section` set to `value`; a missing section is added at the end.
pub open spec fn spec_set(m: IniModel, section: Seq<char>, key: Seq<char>, value: Seq<char>) -> IniModel {
    let i = pos_of(m, section);
    if i < m.len() {
        m.update(i as int, (section, set_entry(m[i as int].1, key, value)))
    } else {
        m.push((section, seq![(key, value)]))
    }
}

/// `m` without the entry `key` of `section`; the section itself stays, even empty.
pub open spec fn spec_remove(m: IniModel, section: Seq<char>, key: Seq<char>) -> IniModel {
    let i = pos_of(m, section);
    if i < m.len() {
        let es = m[i as int].1;
        let j = pos_of(es, key);
        if j < es.len() {
            m.update(i as int, (section, es.remove(j as int)))
        } else {
            m
        }
    } else {
        m
    }
}

/// An ini model is well formed when its section names differ and, in each
/// section, the keys differ.
pub open spec fn model_wf(m: IniModel) -> bool {
    &&& distinct_keys(m)
    &&& forall|i: int| 0 <= i < m.len() ==> distinct_keys(#[trigger] m[i].1)
}

/// The first match found by a scan from the front is the place that `pos_of` names.
pub proof fn lemma_pos_of<V>(s: Seq<(Seq<char>, V)>, k: Seq<char>, i: int)
    requires
        0 <= i <= s.len(),
        forall|j: int| 0 <= j < i ==> s[j].0 != k,
        i == s.len() || s[i].0 == k,
    ensures
        pos_of(s, k) == i,
    decreases i,
{
    if i > 0 {
        lemma_pos_of(s.drop_first(), k, i - 1);
    }
}

/// `pos_of` names a match, and no earlier pair matches.
pub proof fn lemma_pos_of_found<V>(s: Seq<(Seq<char>, V)>, k: Seq<char>)
    ensures
        pos_of(s, k) <= s.len(),
        pos_of(s, k) < s.len() ==> s[pos_of(s, k) as int].0 == k,
        forall|j: int| 0 <= j < pos_of(s, k) ==> s[j].0 != k,
    decreases s.len(),
{
    if s.len() > 0 && s[0].0 != k {
        lemma_pos_of_found(s.drop_first(), k);
        assert forall|j: int| 0 <= j < pos_of(s, k) implies s[j].0 != k by {
            if j > 0 {
                assert(s[j] == s.drop_first()[j - 1]);
            }
        }
    }
}

/// Where the keys differ, a key is found at every place that holds it.
pub proof fn lemma_pos_of_distinct<V>(s: Seq<(Seq<char>, V)>, j: int)
    requires
        distinct_keys(s),
        0 <= j < s.len(),
    ensures
        pos_of(s, s[j].0) == j,
{
    lemma_pos_of(s, s[j].0, j);
}


/// Setting a key keeps a model well formed.
pub proof fn lemma_set_wf(m: IniModel, section: Seq<char>, key: Seq<char>, value: Seq<char>)
    requires
        model_wf(m),
    ensures
        model_wf(spec_set(m, section, key, value)),
{
    lemma_pos_of_found(m, section);
    let i = pos_of(m, section);
    let r = spec_set(m, section, key, value);
    if i < m.len() {
        let es = m[i as int].1;
        lemma_pos_of_found(es, key);
        let es2 = set_entry(es, key, value);
        assert(distinct_keys(es2)) by {
            let j = pos_of(es, key);
            if j < es.len() {
                assert forall|a: int, b: int| 0 <= a < b < es2.len() implies es2[a].0 != es2[b].0 by {
                    assert(es2[a].0 == es[a].0);
                    assert(es2[b].0 == es[b].0);
                }
            } else {
                assert forall|a: int, b: int| 0 <= a < b < es2.len() implies es2[a].0 != es2[b].0 by {
                    if b == es.len() {
                        assert(es[a].0 != key);
                    }
                }
            }
        }
        assert forall|t: int| 0 <= t < r.len() implies distinct_keys(#[trigger] r[t].1) by {
            if t != i {
                assert(r[t] == m[t]);
            }
        }
        assert forall|a: int, b: int| 0 <= a < b < r.len() implies r[a].0 != r[b].0 by {
            assert(r[a].0 == m[a].0);
            assert(r[b].0 == m[b].0);
        }
    } else {
        assert forall|t: int| 0 <= t < r.len() implies distinct_keys(#[trigger] r[t].1) by {
            if t < m.len() {
                assert(r[t] == m[t]);
            }
        }
        assert forall|a: int, b: int| 0 <= a < b < r.len() implies r[a].0 != r[b].0 by {
            if b == m.len() {
                assert(m[a].0 != section);
            }
        }
    }
}

/// Removing a key keeps a model well formed.
pub proof fn lemma_remove_wf(m: IniModel, section: Seq<char>, key: Seq<char>)
    requires
        model_wf(m),
    ensures
        model_wf(spec_remove(m, section, key)),
{
    lemma_pos_of_found(m, section);
    let i = pos_of(m, section);
    let r = spec_remove(m, section, key);
    if i < m.len() {
        let es = m[i as int].1;
        let j = pos_of(es, key);
        if j < es.len() {
            let es2 = es.remove(j as int);
            assert forall|a: int, b: int| 0 <= a < b < es2.len() implies es2[a].0 != es2[b].0 by {
                if a >= j {
                    assert(es2[a] == es[a + 1]);
                } else {
                    assert(es2[a] == es[a]);
                }
                if b >= j {
                    assert(es2[b] == es[b + 1]);
                } else {
                    assert(es2[b] == es[b]);
                }
            }
            assert forall|t: int| 0 <= t < r.len() implies distinct_keys(#[trigger] r[t].1) by {
                if t != i {
                    assert(r[t] == m[t]);
                }
            }
            assert forall|a: int, b: int| 0 <= a < b < r.len() implies r[a].0 != r[b].0 by {
                assert(r[a].0 == m[a].0);
                assert(r[b].0 == m[b].0);
            }
        }
    }
}


/// Replacing a pair by one with the same first part moves no match.
pub proof fn lemma_pos_of_update<V>(a: Seq<(Seq<char>, V)>, idx: int, x: (Seq<char>, V), k: Seq<char>)
    requires
        0 <= idx < a.len(),
        x.0 == a[idx].0,
    ensures
        pos_of(a.update(idx, x), k) == pos_of(a, k),
{
    lemma_pos_of_found(a, k);
    let b = a.update(idx, x);
    let p = pos_of(a, k) as int;
    assert forall|j: int| 0 <= j < p implies b[j].0 != k by {
        assert(b[j].0 == a[j].0);
    }
    if p < a.len() {
        assert(b[p].0 == a[p].0);
    }
    lemma_pos_of(b, k, p);
}

/// Where a pair is added at the end, a match is found where it was, or at the new pair.
pub proof fn lemma_pos_of_push<V>(a: Seq<(Seq<char>, V)>, x: (Seq<char>, V), k: Seq<char>)
    ensures
        pos_of(a.push(x), k) == if pos_of(a, k) < a.len() {
            pos_of(a, k) as int
        } else if x.0 == k {
            a.len() as int
        } else {
            a.len() + 1int
        },
{
    lemma_pos_of_found(a, k);
    let b = a.push(x);
    let p = pos_of(a, k) as int;
    assert forall|j: int| 0 <= j < p implies b[j].0 != k by {
        assert(b[j] == a[j]);
    }
    if p < a.len() {
        assert(b[p] == a[p]);
        lemma_pos_of(b, k, p);
    } else if x.0 == k {
        lemma_pos_of(b, k, p);
    } else {
        lemma_pos_of(b, k, p + 1);
    }
}

/// Where the keys differ, removing the pair at `j` leaves every other key findable.
pub proof fn lemma_pos_of_remove<V>(a: Seq<(Seq<char>, V)>, j: int, k: Seq<char>)
    requires
        distinct_keys(a),
        0 <= j < a.len(),
        a[j].0 != k,
    ensures
        pos_of(a.remove(j), k) == if pos_of(a, k) < j {
            pos_of(a, k) as int
        } else {
            pos_of(a, k) - 1
        },
{
    lemma_pos_of_found(a, k);
    let b = a.remove(j);
    let p = pos_of(a, k) as int;
    if p < j {
        assert forall|t: int| 0 <= t < p implies b[t].0 != k by {
            assert(b[t] == a[t]);
        }
        assert(b[p] == a[p]);
        lemma_pos_of(b, k, p);
    } else {
        assert forall|t: int| 0 <= t < p - 1 implies b[t].0 != k by {
            if t < j {
                assert(b[t] == a[t]);
            } else {
                assert(b[t] == a[t + 1]);
            }
        }
        if p < a.len() {
            assert(b[p - 1] == a[p]);
        }
        lemma_pos_of(b, k, p - 1);
    }
}

/// What a read gives back after a write: the key that was set has the value
/// that was set, and every other key keeps its value.
pub proof fn lemma_get_after_set(
    m: IniModel,
    section: Seq<char>,
    key: Seq<char>,
    value: Seq<char>,
    s2: Seq<char>,
    k2: Seq<char>,
)
    requires
        model_wf(m),
    ensures
        spec_get(spec_set(m, section, key, value), s2, k2) == if s2 == section && k2 == key {
            Some(value)
        } else {
            spec_get(m, s2, k2)
        },
{
    lemma_pos_of_found(m, section);
    lemma_pos_of_found(m, s2);
    let i = pos_of(m, section) as int;
    let r = spec_set(m, section, key, value);
    if i < m.len() {
        let es = m[i].1;
        let es2 = set_entry(es, key, value);
        lemma_pos_of_update(m, i, (section, es2), s2);
        if s2 == section {
            lemma_pos_of_found(es, key);
            lemma_pos_of_found(es, k2);
            let j = pos_of(es, key) as int;
            if j < es.len() {
                lemma_pos_of_update(es, j, (key, value), k2);
                if k2 == key {
                    assert(es2[j].1 == value);
                } else {
                    let q = pos_of(es, k2) as int;
                    if q < es.len() {
                        assert(es2[q] == es[q]);
                    }
                }
            } else {
                lemma_pos_of_push(es, (key, value), k2);
                let q = pos_of(es, k2) as int;
                if q < es.len() {
                    assert(es2[q] == es[q]);
                }
            }
        } else {
            let p = pos_of(m, s2) as int;
            if p < m.len() {
                assert(r[p] == m[p]);
            }
        }
    } else {
        lemma_pos_of_push(m, (section, seq![(key, value)]), s2);
        if s2 == section {
            let es1: Entries = seq![(key, value)];
            lemma_pos_of_push(Seq::<(Seq<char>, Seq<char>)>::empty(), (key, value), k2);
            assert(Seq::<(Seq<char>, Seq<char>)>::empty().push((key, value)) == es1);
        } else {
            let p = pos_of(m, s2) as int;
            if p < m.len() {
                assert(r[p] == m[p]);
            }
        }
    }
}

/// What a read gives back after a removal: nothing for the removed key, and
/// every other key keeps its value.
pub proof fn lemma_get_after_remove(
    m: IniModel,
    section: Seq<char>,
    key: Seq<char>,
    s2: Seq<char>,
    k2: Seq<char>,
)
    requires
        model_wf(m),
    ensures
        spec_get(spec_remove(m, section, key), s2, k2) == if s2 == section && k2 == key {
            None
        } else {
            spec_get(m, s2, k2)
        },
{
    lemma_pos_of_found(m, section);
    lemma_pos_of_found(m, s2);
    let i = pos_of(m, section) as int;
    let r = spec_remove(m, section, key);
    if i < m.len() {
        let es = m[i].1;
        lemma_pos_of_found(es, key);
        let j = pos_of(es, key) as int;
        if j < es.len() {
            let es2 = es.remove(j);
            lemma_pos_of_update(m, i, (section, es2), s2);
            if s2 == section {
                assert(distinct_keys(es));
                lemma_pos_of_found(es, k2);
                if k2 == key {
                    assert forall|t: int| 0 <= t < es2.len() implies es2[t].0 != key by {
                        if t < j {
                            assert(es2[t] == es[t]);
                        } else {
                            assert(es2[t] == es[t + 1]);
                        }
                    }
                    lemma_pos_of(es2, key, es2.len() as int);
                } else {
                    lemma_pos_of_remove(es, j, k2);
                    let q = pos_of(es, k2) as int;
                    if q < j {
                        assert(es2[q] == es[q]);
                    } else if q < es.len() {
                        assert(es2[q - 1] == es[q]);
                    }
                }
            } else {
                let p = pos_of(m, s2) as int;
                if p < m.len() {
                    assert(r[p] == m[p]);
                }
            }
        }
    }
}

/// One entry of a section.
struct Entry {
    key: String,
    value: String,
}

impl View for Entry {
    type V = (Seq<char>, Seq<char>);

    closed spec fn view(&self) -> (Seq<char>, Seq<char>) {
        (self.key@, self.value@)
    }
}

/// One section: its name and its entries.
struct Section {
    name: String,
    entries: Vec<Entry>,
}

impl View for Section {
    type V = (Seq<char>, Entries);

    closed spec fn view(&self) -> (Seq<char>, Entries) {
        (self.name@, self.entries@.map_values(|e: Entry| e@))
    }
}

/// The contents of a `desktop.ini` file.
pub struct Ini {
    sections: Vec<Section>,
}

impl View for Ini {
    type V = IniModel;

    closed spec fn view(&self) -> IniModel {
        self.sections@.map_values(|s: Section| s@)
    }
}

/// The place of `key` among `entries`, as `pos_of` names it.
fn find_entry(entries: &Vec<Entry>, key: &String) -> (j: usize)
    ensures
        j == pos_of(entries@.map_values(|e: Entry| e@), key@),
{
    let ghost es = entries@.map_values(|e: Entry| e@);
    let mut j: usize = 0;
    while j < entries.len()
        invariant
            j <= entries@.len(),
            es == entries@.map_values(|e: Entry| e@),
            forall|t: int| 0 <= t < j ==> es[t].0 != key@,
        decreases entries@.len() - j,
    {
        if entries[j].key == *key {
            proof {
                lemma_pos_of(es, key@, j as int);
            }
            return j;
        }
        j += 1;
    }
    proof {
        lemma_pos_of(es, key@, j as int);
    }
    j
}

/// Puts `name` into the ascending list `sorted`, which does not hold it yet.
fn insert_sorted(sorted: &mut Vec<String>, name: String)
    requires
        strictly_sorted(views(old(sorted)@)),
        !views(old(sorted)@).contains(name@),
    ensures
        strictly_sorted(views(final(sorted)@)),
        forall|x: Seq<char>| #[trigger] views(final(sorted)@).contains(x) <==> views(old(sorted)@).contains(x) || x == name@,
{
    let ghost o = views(sorted@);
    let mut t: usize = 0;
    while t < sorted.len() && !str_less(name.as_str(), sorted[t].as_str())
        invariant
            t <= sorted@.len(),
            o == views(sorted@),
            forall|u: int| 0 <= u < t ==> !seq_less(name@, #[trigger] o[u]),
        decreases sorted@.len() - t,
    {
        t += 1;
    }
    let ghost n = name@;
    sorted.insert(t, name);
    let ghost f = views(sorted@);
    assert(f =~= o.insert(t as int, n));
    assert forall|u: int| 0 <= u < t implies seq_less(#[trigger] o[u], n) by {
        assert(o[u] != n);
        lemma_less_total(o[u], n);
    }
    assert forall|a: int, b: int| 0 <= a < b < f.len() implies seq_less(f[a], f[b]) by {
        if b < t {
            assert(f[a] == o[a] && f[b] == o[b]);
        } else if b == t {
            assert(f[a] == o[a]);
        } else if a < t {
            assert(f[a] == o[a] && f[b] == o[b - 1]);
        } else if a == t {
            assert(f[b] == o[b - 1]);
            assert(seq_less(n, o[t as int]));
            if b - 1 > t {
                lemma_less_transitive(n, o[t as int], o[b - 1]);
            }
        } else {
            assert(f[a] == o[a - 1] && f[b] == o[b - 1]);
        }
    }
    assert forall|x: Seq<char>| #[trigger] f.contains(x) <==> o.contains(x) || x == n by {
        if f.contains(x) {
            let k = choose|k: int| 0 <= k < f.len() && f[k] == x;
            if k < t {
                assert(o[k] == x);
            } else if k > t {
                assert(o[k - 1] == x);
            }
        }
        if o.contains(x) {
            let k = choose|k: int| 0 <= k < o.len() && o[k] == x;
            if k < t {
                assert(f[k] == x);
            } else {
                assert(f[k + 1] == x);
            }
        }
        if x == n {
            assert(f[t as int] == x);
        }
    }
}

impl Ini {
    /// Well formed: the section names differ, and the keys of each section differ.
    pub open spec fn wf(&self) -> bool {
        model_wf(self@)
    }

    /// The place of `section`, as `pos_of` names it.
    fn find_section(&self, section: &String) -> (i: usize)
        ensures
            i == pos_of(self@, section@),
    {
        let mut i: usize = 0;
        while i < self.sections.len()
            invariant
                i <= self.sections@.len(),
                forall|t: int| 0 <= t < i ==> self@[t].0 != section@,
            decreases self.sections@.len() - i,
        {
            if self.sections[i].name == *section {
                proof {
                    lemma_pos_of(self@, section@, i as int);
                }
                return i;
            }
            i += 1;
        }
        proof {
            lemma_pos_of(self@, section@, i as int);
        }
        i
    }

    /// An empty ini file.
    pub fn new() -> (ini: Ini)
        ensures
            ini@ == Seq::<(Seq<char>, Entries)>::empty(),
            ini.wf(),
    {
        let ini = Ini { sections: Vec::new() };
        assert(ini@ =~= Seq::<(Seq<char>, Entries)>::empty());
        ini
    }

    /// The value of `key` in `section`, if there is one.
    pub fn get(&self, section: &str, key: &str) -> (value: Option<String>)
        ensures
            value matches Some(v) ==> spec_get(self@, section@, key@) == Some(v@),
            value is None ==> spec_get(self@, section@, key@) is None,
    {
        let s = section.to_string();
        let k = key.to_string();
        let i = self.find_section(&s);
        if i < self.sections.len() {
            let j = find_entry(&self.sections[i].entries, &k);
            if j < self.sections[i].entries.len() {
                return Some(self.sections[i].entries[j].value.clone());
            }
        }
        None
    }

    /// Sets `key` of `section` to `value`, adding the section or the key where
    /// they are missing, and gives back the value that the key had.
    pub fn set(&mut self, section: &str, key: &str, value: &str) -> (previous: Option<String>)
        requires
            old(self).wf(),
        ensures
            final(self).wf(),
            final(self)@ == spec_set(old(self)@, section@, key@, value@),
            previous matches Some(p) ==> spec_get(old(self)@, section@, key@) == Some(p@),
            previous is None ==> spec_get(old(self)@, section@, key@) is None,
    {
        proof {
            lemma_set_wf(self@, section@, key@, value@);
        }
        let ghost m = self@;
        let s = section.to_string();
        let k = key.to_string();
        let v = value.to_string();
        let i = self.find_section(&s);
        if i < self.sections.len() {
            let mut sec = self.sections.remove(i);
            let ghost es = sec@.1;
            assert(sec@ == m[i as int]);
            let j = find_entry(&sec.entries, &k);
            let previous = if j < sec.entries.len() {
                let old_entry = sec.entries.remove(j);
                sec.entries.insert(j, Entry { key: k, value: v });
                assert(sec.entries@.map_values(|e: Entry| e@) =~= es.update(j as int, (key@, value@)));
                Some(old_entry.value)
            } else {
                sec.entries.push(Entry { key: k, value: v });
                assert(sec.entries@.map_values(|e: Entry| e@) =~= es.push((key@, value@)));
                None
            };
            proof {
                lemma_pos_of_found(m, section@);
            }
            assert(sec@ == (section@, set_entry(es, key@, value@)));
            self.sections.insert(i, sec);
            assert(self@ =~= spec_set(m, section@, key@, value@));
            previous
        } else {
            let mut entries: Vec<Entry> = Vec::new();
            entries.push(Entry { key: k, value: v });
            let sec = Section { name: s, entries };
            assert(sec.entries@.map_values(|e: Entry| e@) =~= seq![(key@, value@)]);
            self.sections.push(sec);
            assert(self@ =~= spec_set(m, section@, key@, value@));
            None
        }
    }

    /// Removes `key` from `section`, giving back the value that it had; the
    /// section itself stays, even where it becomes empty.
    pub fn remove(&mut self, section: &str, key: &str) -> (previous: Option<String>)
        requires
            old(self).wf(),
        ensures
            final(self).wf(),
            final(self)@ == spec_remove(old(self)@, section@, key@),
            previous matches Some(p) ==> spec_get(old(self)@, section@, key@) == Some(p@),
            previous is None ==> spec_get(old(self)@, section@, key@) is None,
    {
        proof {
            lemma_remove_wf(self@, section@, key@);
        }
        let ghost m = self@;
        let s = section.to_string();
        let k = key.to_string();
        let i = self.find_section(&s);
        if i < self.sections.len() {
            let j = find_entry(&self.sections[i].entries, &k);
            if j < self.sections[i].entries.len() {
                let mut sec = self.sections.remove(i);
                let ghost es = sec@.1;
                assert(sec@ == m[i as int]);
                let old_entry = sec.entries.remove(j);
                assert(sec.entries@.map_values(|e: Entry| e@) =~= es.remove(j as int));
                proof {
                    lemma_pos_of_found(m, section@);
                }
                self.sections.insert(i, sec);
                assert(self@ =~= spec_remove(m, section@, key@));
                return Some(old_entry.value);
            }
        }
        None
    }

    /// Applies one line of an ini file to the reader's state: the current
    /// section and the contents read so far.
    fn apply_line(&mut self, section: &mut Vec<char>, line: &[char])
        requires
            old(self).wf(),
        ensures
            final(self).wf(),
            (final(section)@, final(self)@) == parse_line((old(section)@, old(self)@), line@),
    {
        let t = trim_chars(line);
        if t.len() == 0 || t[0] == '#' {
            return;
        }
        if t[0] == '[' {
            *section = t;
            return;
        }
        let i = find_char(&t, '=');
        if i < t.len() {
            let key = string_of(&sub_chars(&t, 0, i));
            let value = string_of(&sub_chars(&t, i + 1, t.len()));
            let name = string_of(section);
            assert(t@.take(i as int) == t@.subrange(0, i as int));
            assert(t@.skip(i + 1) == t@.subrange(i + 1, t@.len() as int));
            self.set(name.as_str(), key.as_str(), value.as_str());
        }
    }

    /// Reads the text of an ini file: lines are trimmed; blank lines and lines
    /// that start with `#` are skipped; a line that starts with `[` opens a
    /// section; a line with `=` sets a key of the current section.
    pub fn parse(text: &str) -> (ini: Ini)
        ensures
            ini.wf(),
            ini@ == spec_parse_text(text@),
    {
        let cs = chars_of(text);
        let mut ini = Ini::new();
        let mut section: Vec<char> = Vec::new();
        let mut line: Vec<char> = Vec::new();
        let mut i: usize = 0;
        assert(cs@.skip(0) == cs@);
        assert(section@ =~= Seq::<char>::empty());
        assert(line@ =~= Seq::<char>::empty());
        while i < cs.len()
            invariant
                i <= cs@.len(),
                cs@ == text@,
                ini.wf(),
                parse_chars(text@, seq![], (seq![], seq![])) == parse_chars(
                    cs@.skip(i as int),
                    line@,
                    (section@, ini@),
                ),
            decreases cs@.len() - i,
        {
            let ghost rest = cs@.skip(i as int);
            assert(rest[0] == cs@[i as int]);
            assert(rest.drop_first() == cs@.skip(i + 1));
            if cs[i] == '\n' {
                ini.apply_line(&mut section, &line);
                line = Vec::new();
                assert(line@ =~= Seq::<char>::empty());
            } else {
                line.push(cs[i]);
            }
            i += 1;
        }
        ini.apply_line(&mut section, &line);
        ini
    }

    /// Whether the ini file has a section named `name`.
    fn has_section_named(&self, name: &String) -> (b: bool)
        ensures
            b == has_section(self@, name@),
    {
        let i = self.find_section(name);
        proof {
            lemma_pos_of_found(self@, name@);
            if has_section(self@, name@) {
                let k = choose|k: int| 0 <= k < self@.len() && self@[k].0 == name@;
                assert(pos_of(self@, name@) <= k);
            }
        }
        i < self.sections.len()
    }

    /// The names of the sections in the order in which they are written: the
    /// shell section and the property section first, where they are there, and
    /// then the others in ascending order.
    pub fn ordered(&self) -> (order: Vec<String>)
        requires
            self.wf(),
        ensures
            section_order(self@, views(order@)),
    {
        let shell = "[.ShellClassInfo]".to_string();
        let props = "[{F29F85E0-4FF9-1068-AB91-08002B27B3D9}]".to_string();
        let mut front: Vec<String> = Vec::new();
        if self.has_section_named(&shell) {
            front.push(shell.clone());
        }
        if self.has_section_named(&props) {
            front.push(props.clone());
        }
        let ghost p = present_preferred(self@);
        assert(views(front@) =~= p);
        let mut sorted: Vec<String> = Vec::new();
        let mut i: usize = 0;
        while i < self.sections.len()
            invariant
                i <= self.sections@.len(),
                self.wf(),
                shell@ == shell_section(),
                props@ == property_section(),
                strictly_sorted(views(sorted@)),
                forall|x: Seq<char>| #[trigger] views(sorted@).contains(x) <==> (exists|j: int| 0 <= j < i && #[trigger] self@[j].0 == x) && !is_preferred(x),
            decreases self.sections@.len() - i,
        {
            let name = self.sections[i].name.clone();
            assert(name@ == self@[i as int].0);
            if name != shell && name != props {
                assert(!views(sorted@).contains(name@)) by {
                    if views(sorted@).contains(name@) {
                        let j = choose|j: int| 0 <= j < i && #[trigger] self@[j].0 == name@;
                        assert(distinct_keys(self@));
                    }
                }
                let ghost before = views(sorted@);
                insert_sorted(&mut sorted, name);
                assert forall|x: Seq<char>| #[trigger] views(sorted@).contains(x) <==> (exists|j: int| 0 <= j < i + 1 && #[trigger] self@[j].0 == x) && !is_preferred(x) by {
                    if (exists|j: int| 0 <= j < i + 1 && #[trigger] self@[j].0 == x) && !is_preferred(x) {
                        let j = choose|j: int| 0 <= j < i + 1 && #[trigger] self@[j].0 == x;
                        if j < i {
                            assert(before.contains(x));
                        }
                    }
                }
            } else {
                assert forall|x: Seq<char>| #[trigger] views(sorted@).contains(x) <==> (exists|j: int| 0 <= j < i + 1 && #[trigger] self@[j].0 == x) && !is_preferred(x) by {
                    if (exists|j: int| 0 <= j < i + 1 && #[trigger] self@[j].0 == x) && !is_preferred(x) {
                        let j = choose|j: int| 0 <= j < i + 1 && #[trigger] self@[j].0 == x;
                        assert(j < i);
                    }
                }
            }
            i += 1;
        }
        let ghost r = views(sorted@);
        let mut order = front;
        let mut k: usize = 0;
        while k < sorted.len()
            invariant
                k <= sorted@.len(),
                r == views(sorted@),
                views(order@) == p + r.take(k as int),
            decreases sorted@.len() - k,
        {
            let ghost before = views(order@);
            let c = sorted[k].clone();
            assert(c@ == r[k as int]);
            order.push(c);
            assert(views(order@) =~= before.push(r[k as int]));
            assert(r.take(k + 1) =~= r.take(k as int).push(r[k as int]));
            assert(views(order@) =~= p + r.take(k + 1));
            k += 1;
        }
        assert(r.take(r.len() as int) == r);
        assert(views(order@).skip(p.len() as int) =~= r);
        assert(views(order@).take(p.len() as int) =~= p);
        assert forall|x: Seq<char>| r.contains(x) <==> has_section(self@, x) && !is_preferred(x) by {
            if has_section(self@, x) && !is_preferred(x) {
                let j = choose|j: int| 0 <= j < self@.len() && #[trigger] self@[j].0 == x;
                assert(self@[j].0 == x);
            }
        }
        order
    }

    /// The text of the ini file: its sections in the order that `ordered`
    /// gives, each non-empty one as an empty line, its name, and its entries
    /// as `key=value` lines.
    pub fn to_text(&self) -> (text: String)
        requires
            self.wf(),
        ensures
            exists|order: Seq<Seq<char>>| section_order(self@, order) && text@ == render(self@, order),
    {
        let order = self.ordered();
        let ghost o = views(order@);
        let mut out = String::new();
        let mut t: usize = 0;
        assert(o.take(0) =~= Seq::<Seq<char>>::empty());
        while t < order.len()
            invariant
                t <= order@.len(),
                o == views(order@),
                self.wf(),
                out@ == render(self@, o.take(t as int)),
            decreases order@.len() - t,
        {
            let ghost base = out@;
            let i = self.find_section(&order[t]);
            proof {
                lemma_pos_of_found(self@, o[t as int]);
            }
            assert(o.take(t + 1).drop_last() =~= o.take(t as int));
            assert(o.take(t + 1).last() == o[t as int]);
            if i < self.sections.len() {
                let sec = &self.sections[i];
                let ghost es = sec@.1;
                assert(es == entries_of(self@, o[t as int]));
                if sec.entries.len() > 0 {
                    out.append("\n");
                    out.append(sec.name.as_str());
                    out.append("\n");
                    let ghost head = out@;
                    let mut e: usize = 0;
                    assert(es.take(0) =~= Seq::<(Seq<char>, Seq<char>)>::empty());
                    while e < sec.entries.len()
                        invariant
                            e <= sec.entries@.len(),
                            es == sec@.1,
                            out@ == head + render_entries(es.take(e as int)),
                        decreases sec.entries@.len() - e,
                    {
                        let ghost before = out@;
                        assert(es.take(e + 1).drop_last() =~= es.take(e as int));
                        assert(es.take(e + 1).last() == es[e as int]);
                        assert(es[e as int] == sec.entries@[e as int]@);
                        out.append(sec.entries[e].key.as_str());
                        out.append("=");
                        out.append(sec.entries[e].value.as_str());
                        out.append("\n");
                        proof {
                            reveal_strlit("=");
                            reveal_strlit("\n");
                        }
                        assert(out@ =~= head + render_entries(es.take(e + 1)));
                        e += 1;
                    }
                    assert(es.take(es.len() as int) == es);
                    proof {
                        reveal_strlit("\n");
                    }
                    assert(out@ =~= base + render_section(o[t as int], es));
                } else {
                    assert(out@ =~= base + render_section(o[t as int], es));
                }
            } else {
                assert(out@ =~= base + render_section(o[t as int], entries_of(self@, o[t as int])));
            }
            t += 1;
        }
        assert(o.take(o.len() as int) == o);
        out
    }
}

} // verus!
