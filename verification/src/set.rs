//! The `set` command: which edits it makes to an ini file, and when an icon is accepted.
use vstd::prelude::*;
use crate::fields::{lemma_confirm_after_set, spec_confirm, spec_set_field, DIRECTORY_CLASS};
use crate::format::{execution_section, property_section, shell_section};
use crate::ini::{
    lemma_get_after_remove, lemma_get_after_set, lemma_remove_wf, lemma_set_wf, model_wf, spec_remove,
    spec_set, Ini, IniModel,
};
use crate::tags::{
    clean_tag, lemma_add_keeps_present, lemma_split_nonempty, lemma_tags_after_add, spec_tags, split_on,
    tags_after_add, tags_after_remove, tags_value,
};
use crate::text::{chars_of, string_of, sub_chars, views};

verus! {

/// The place of the last `c` in `s`, or -1 where there is none.
pub open spec fn last_pos(s: Seq<char>, c: char) -> int
    decreases s.len(),
{
    if s.len() == 0 {
        -1
    } else if s.last() == c {
        s.len() - 1
    } else {
        last_pos(s.drop_last(), c)
    }
}

/// Whether `c` is an ASCII digit.
pub open spec fn is_digit(c: char) -> bool {
    '0' <= c && c <= '9'
}

/// The number that the digits `d` write in decimal.
pub open spec fn digits_value(d: Seq<char>) -> nat
    decreases d.len(),
{
    if d.len() == 0 {
        0
    } else {
        digits_value(d.drop_last()) * 10 + ((d.last() as int) - 48) as nat
    }
}

/// The digits of a number written as `s`: `s` without a leading `+`.
pub open spec fn unsigned_digits(s: Seq<char>) -> Seq<char> {
    if s.len() > 0 && s[0] == '+' {
        s.drop_first()
    } else {
        s
    }
}

/// Whether every character of `d` is an ASCII digit.
pub open spec fn all_digits(d: Seq<char>) -> bool {
    forall|i: int| 0 <= i < d.len() ==> is_digit(#[trigger] d[i])
}

/// Whether `s` reads as a `u32`, as `str::parse::<u32>` reads it: an optional
/// `+`, then one digit or more, of a value that fits in 32 bits.
pub open spec fn parses_u32(s: Seq<char>) -> bool {
    let d = unsigned_digits(s);
    d.len() > 0 && all_digits(d) && digits_value(d) <= 0xFFFF_FFFF
}

/// The file part of the icon `s`: where `s` has a comma, the part before the
/// last comma, provided the part after it reads as a `u32` (the icon's index);
/// `s` itself where it has no comma. `None` where the index does not read: the
/// icon is not well formed.
pub open spec fn spec_icon_file(s: Seq<char>) -> Option<Seq<char>> {
    let i = last_pos(s, ',');
    if i >= 0 {
        if parses_u32(s.skip(i + 1)) {
            Some(s.take(i))
        } else {
            None
        }
    } else {
        Some(s)
    }
}

proof fn lemma_last_pos(s: Seq<char>, c: char, i: int)
    requires
        -1 <= i < s.len(),
        forall|j: int| i < j < s.len() ==> s[j] != c,
        i == -1 || s[i] == c,
    ensures
        last_pos(s, c) == i,
    decreases s.len(),
{
    if s.len() > 0 && i < s.len() - 1 {
        assert(s.last() != c);
        lemma_last_pos(s.drop_last(), c, i);
    }
}

proof fn lemma_digits_monotone(d: Seq<char>, k: int)
    requires
        0 <= k <= d.len(),
        forall|i: int| 0 <= i < d.len() ==> is_digit(#[trigger] d[i]),
    ensures
        digits_value(d.take(k)) <= digits_value(d),
    decreases d.len(),
{
    if k < d.len() {
        let dl = d.drop_last();
        assert forall|i: int| 0 <= i < dl.len() implies is_digit(#[trigger] dl[i]) by {
            assert(dl[i] == d[i]);
        }
        lemma_digits_monotone(dl, k);
        assert(dl.take(k) == d.take(k));
        assert(is_digit(d[d.len() - 1]));
    } else {
        assert(d.take(k) == d);
    }
}

/// Whether `s` reads as a `u32`.
fn reads_as_u32(s: &[char]) -> (b: bool)
    ensures
        b == parses_u32(s@),
{
    let start: usize = if s.len() > 0 && s[0] == '+' { 1 } else { 0 };
    let d = sub_chars(s, start, s.len());
    assert(d@ == unsigned_digits(s@));
    if d.len() == 0 {
        return false;
    }
    let mut acc: u64 = 0;
    let mut i: usize = 0;
    assert(d@.take(0) =~= Seq::<char>::empty());
    while i < d.len()
        invariant
            i <= d@.len(),
            d@ == unsigned_digits(s@),
            d@.len() > 0,
            forall|j: int| 0 <= j < i ==> is_digit(#[trigger] d@[j]),
            acc == digits_value(d@.take(i as int)),
            acc <= 0xFFFF_FFFF,
        decreases d@.len() - i,
    {
        let c = d[i];
        if !('0' <= c && c <= '9') {
            assert(!is_digit(d@[i as int]));
            return false;
        }
        assert(d@.take(i + 1).drop_last() == d@.take(i as int));
        acc = acc * 10 + ((c as u64) - 48);
        i += 1;
        if acc > 0xFFFF_FFFF {
            proof {
                if all_digits(d@) {
                    lemma_digits_monotone(d@, i as int);
                }
            }
            return false;
        }
    }
    assert(d@.take(d@.len() as int) == d@);
    true
}

/// The file part of the icon `s`, as `spec_icon_file` says.
pub fn icon_resource_file(s: &str) -> (file: Option<String>)
    ensures
        file matches Some(f) ==> spec_icon_file(s@) == Some(f@),
        file is None ==> spec_icon_file(s@) is None,
{
    let cs = chars_of(s);
    let mut i: usize = cs.len();
    while i > 0 && cs[i - 1] != ','
        invariant
            i <= cs@.len(),
            forall|j: int| i <= j < cs@.len() ==> cs@[j] != ',',
        decreases i,
    {
        i -= 1;
    }
    if i == 0 {
        proof {
            lemma_last_pos(cs@, ',', -1);
        }
        return Some(string_of(&cs));
    }
    proof {
        lemma_last_pos(cs@, ',', i - 1);
    }
    let pos = sub_chars(&cs, i, cs.len());
    assert(pos@ == cs@.skip(i as int));
    if reads_as_u32(&pos) {
        let exe = sub_chars(&cs, 0, i - 1);
        assert(exe@ == cs@.take(i - 1));
        Some(string_of(&exe))
    } else {
        None
    }
}

/// Every tag of `ts`, split further at each comma.
pub open spec fn split_commas(ts: Seq<Seq<char>>) -> Seq<Seq<char>>
    decreases ts.len(),
{
    if ts.len() == 0 {
        seq![]
    } else {
        split_commas(ts.drop_last()) + split_on(ts.last(), ',')
    }
}

/// Splits `s` at each comma, keeping empty pieces, and appends the pieces to `out`.
fn push_pieces(out: &mut Vec<String>, s: &str)
    ensures
        views(final(out)@) == views(old(out)@) + split_on(s@, ','),
{
    let cs = chars_of(s);
    let ghost start = views(out@);
    let ghost mut done: Seq<Seq<char>> = seq![];
    let mut cur: Vec<char> = Vec::new();
    let mut i: usize = 0;
    assert(cs@.take(0) =~= Seq::<char>::empty());
    assert(done =~= Seq::<Seq<char>>::empty());
    while i < cs.len()
        invariant
            i <= cs@.len(),
            split_on(cs@.take(i as int), ',') == done.push(cur@),
            views(out@) == start + done,
        decreases cs@.len() - i,
    {
        assert(cs@.take(i + 1).drop_last() =~= cs@.take(i as int));
        assert(cs@.take(i + 1).last() == cs@[i as int]);
        if cs[i] == ',' {
            let ghost before = views(out@);
            out.push(string_of(&cur));
            assert(views(out@) =~= before.push(cur@));
            proof {
                done = done.push(cur@);
            }
            assert(views(out@) =~= start + done);
            cur = Vec::new();
            assert(cur@ =~= Seq::<char>::empty());
        } else {
            let ghost old_cur = cur@;
            cur.push(cs[i]);
            assert(done.push(old_cur).update(done.len() as int, old_cur.push(cs@[i as int])) =~= done.push(cur@));
        }
        i += 1;
    }
    assert(cs@.take(cs@.len() as int) == cs@);
    let ghost before = views(out@);
    out.push(string_of(&cur));
    assert(views(out@) =~= before.push(cur@));
    assert(views(out@) =~= start + done.push(cur@));
}

/// Every tag of `tags`, split further at each comma, as `split_commas` says.
fn split_tags(tags: &Vec<String>) -> (out: Vec<String>)
    ensures
        views(out@) == split_commas(views(tags@)),
{
    let mut out: Vec<String> = Vec::new();
    let mut i: usize = 0;
    assert(views(tags@).take(0) =~= Seq::<Seq<char>>::empty());
    assert(views(out@) =~= Seq::<Seq<char>>::empty());
    while i < tags.len()
        invariant
            i <= tags@.len(),
            views(out@) == split_commas(views(tags@).take(i as int)),
        decreases tags@.len() - i,
    {
        assert(views(tags@).take(i + 1).drop_last() =~= views(tags@).take(i as int));
        assert(views(tags@).take(i + 1).last() == tags@[i as int]@);
        push_pieces(&mut out, tags[i].as_str());
        i += 1;
    }
    assert(views(tags@).take(tags@.len() as int) == views(tags@));
    out
}

/// The options of the `set` command.
pub struct SetOptions {
    /// The name shown for the folder.
    pub name: Option<String>,
    /// The icon, such as `shell32.dll,4`.
    pub icon: Option<String>,
    /// The tip shown on hovering.
    pub tip: Option<String>,
    /// Tags to add; each may hold several, separated by commas.
    pub add_tag: Option<Vec<String>>,
    /// Tags to remove; each may hold several, separated by commas.
    pub remove_tag: Option<Vec<String>>,
    /// Whether to remove all tags.
    pub clear_tag: bool,
    /// The custom command.
    pub run: Option<String>,
    /// Whether to ask before running the custom command.
    pub confirm: bool,
}

/// What the `set` command does to `m`, in this order: the name; the icon, where
/// it is well formed; the tip; added tags; removed tags; all tags cleared; the
/// custom command, with the directory class that runs it; and the confirmation
/// flag, turned on where asked for and off where it was stored but not asked for.
pub open spec fn spec_apply_set(m: IniModel, o: SetOptions) -> IniModel {
    let m1 = match o.name {
        Some(n) => spec_set_field(m, shell_section(), "LocalizedResourceName"@, n@),
        None => m,
    };
    let m2 = match o.icon {
        Some(i) => if icon_well_formed(i@) {
            spec_set_field(m1, shell_section(), "IconResource"@, i@)
        } else {
            m1
        },
        None => m1,
    };
    let m3 = match o.tip {
        Some(t) => spec_set_field(m2, shell_section(), "InfoTip"@, t@),
        None => m2,
    };
    let m4 = match o.add_tag {
        Some(t) => if t.len() > 0 {
            spec_set(m3, property_section(), "Prop5"@, tags_value(tags_after_add(m3, split_commas(views(t@)))))
        } else {
            m3
        },
        None => m3,
    };
    let m5 = match o.remove_tag {
        Some(t) => if t.len() > 0 {
            spec_set(m4, property_section(), "Prop5"@, tags_value(tags_after_remove(m4, split_commas(views(t@)))))
        } else {
            m4
        },
        None => m4,
    };
    let m6 = if o.clear_tag {
        spec_remove(m5, property_section(), "Prop5"@)
    } else {
        m5
    };
    let m7 = match o.run {
        Some(c) => spec_set(
            spec_set_field(m6, execution_section(), "Target"@, c@),
            shell_section(),
            "DirectoryClass"@,
            DIRECTORY_CLASS@,
        ),
        None => m6,
    };
    if o.confirm {
        spec_set(m7, execution_section(), "ConfirmExecution"@, "1"@)
    } else if spec_confirm(m7) is Some {
        spec_set(m7, execution_section(), "ConfirmExecution"@, "0"@)
    } else {
        m7
    }
}

/// Whether the icon `i` is well formed, and so accepted: a file and an index
/// after a comma, or a file alone.
pub open spec fn icon_well_formed(i: Seq<char>) -> bool {
    spec_icon_file(i) is Some
}

/// An edit of a key other than the confirmation flag keeps the model well
/// formed and the flag as it was.
proof fn lemma_flag_kept(m: IniModel, section: Seq<char>, key: Seq<char>, value: Seq<char>, removes: bool)
    requires
        model_wf(m),
        !(section == execution_section() && key == "ConfirmExecution"@),
    ensures
        removes ==> model_wf(spec_remove(m, section, key)),
        removes ==> spec_confirm(spec_remove(m, section, key)) == spec_confirm(m),
        !removes ==> model_wf(spec_set(m, section, key, value)),
        !removes ==> spec_confirm(spec_set(m, section, key, value)) == spec_confirm(m),
{
    lemma_set_wf(m, section, key, value);
    lemma_remove_wf(m, section, key);
    lemma_get_after_set(m, section, key, value, execution_section(), "ConfirmExecution"@);
    lemma_get_after_remove(m, section, key, execution_section(), "ConfirmExecution"@);
}

/// The sections and keys that the `set` command edits besides the flag.
proof fn lemma_other_keys()
    ensures
        shell_section() != execution_section(),
        property_section() != execution_section(),
        shell_section() != property_section(),
        "Target"@ != "ConfirmExecution"@,
{
    reveal_strlit("[.ShellClassInfo]");
    reveal_strlit("[{F29F85E0-4FF9-1068-AB91-08002B27B3D9}]");
    reveal_strlit("[.CustomExecution]");
    reveal_strlit("Target");
    reveal_strlit("ConfirmExecution");
    assert(shell_section()[2] != execution_section()[2]);
    assert(property_section()[1] != execution_section()[1]);
    assert(shell_section()[1] != property_section()[1]);
    assert("Target"@[0] != "ConfirmExecution"@[0]);
}

/// A field set by the `set` command keeps the model well formed and the flag
/// as it was.
proof fn lemma_field_kept(m: IniModel, section: Seq<char>, key: Seq<char>, value: Seq<char>)
    requires
        model_wf(m),
        section != execution_section() || key == "Target"@,
    ensures
        model_wf(spec_set_field(m, section, key, value)),
        spec_confirm(spec_set_field(m, section, key, value)) == spec_confirm(m),
{
    lemma_other_keys();
    lemma_flag_kept(m, section, key, value, true);
    lemma_flag_kept(m, section, key, value, false);
}

/// After the `set` command the custom command asks for confirmation exactly
/// when it was asked for; where it was not, a flag that was stored before is
/// turned off and none is added otherwise.
pub proof fn lemma_confirm_after_apply(m: IniModel, o: SetOptions)
    requires
        model_wf(m),
    ensures
        spec_confirm(spec_apply_set(m, o)) == if o.confirm {
            Some(true)
        } else if spec_confirm(m) is Some {
            Some(false)
        } else {
            None
        },
{
    lemma_other_keys();
    let m1 = match o.name {
        Some(n) => spec_set_field(m, shell_section(), "LocalizedResourceName"@, n@),
        None => m,
    };
    if let Some(n) = o.name {
        lemma_field_kept(m, shell_section(), "LocalizedResourceName"@, n@);
    }
    let m2 = match o.icon {
        Some(i) => if icon_well_formed(i@) {
            spec_set_field(m1, shell_section(), "IconResource"@, i@)
        } else {
            m1
        },
        None => m1,
    };
    if let Some(i) = o.icon {
        lemma_field_kept(m1, shell_section(), "IconResource"@, i@);
    }
    let m3 = match o.tip {
        Some(t) => spec_set_field(m2, shell_section(), "InfoTip"@, t@),
        None => m2,
    };
    if let Some(t) = o.tip {
        lemma_field_kept(m2, shell_section(), "InfoTip"@, t@);
    }
    let m4 = match o.add_tag {
        Some(t) => if t.len() > 0 {
            spec_set(m3, property_section(), "Prop5"@, tags_value(tags_after_add(m3, split_commas(views(t@)))))
        } else {
            m3
        },
        None => m3,
    };
    if let Some(t) = o.add_tag {
        lemma_flag_kept(m3, property_section(), "Prop5"@, tags_value(tags_after_add(m3, split_commas(views(t@)))), false);
    }
    let m5 = match o.remove_tag {
        Some(t) => if t.len() > 0 {
            spec_set(m4, property_section(), "Prop5"@, tags_value(tags_after_remove(m4, split_commas(views(t@)))))
        } else {
            m4
        },
        None => m4,
    };
    if let Some(t) = o.remove_tag {
        lemma_flag_kept(m4, property_section(), "Prop5"@, tags_value(tags_after_remove(m4, split_commas(views(t@)))), false);
    }
    let m6 = if o.clear_tag {
        spec_remove(m5, property_section(), "Prop5"@)
    } else {
        m5
    };
    lemma_flag_kept(m5, property_section(), "Prop5"@, seq![], true);
    let m7 = match o.run {
        Some(c) => spec_set(
            spec_set_field(m6, execution_section(), "Target"@, c@),
            shell_section(),
            "DirectoryClass"@,
            DIRECTORY_CLASS@,
        ),
        None => m6,
    };
    if let Some(c) = o.run {
        lemma_field_kept(m6, execution_section(), "Target"@, c@);
        lemma_flag_kept(spec_set_field(m6, execution_section(), "Target"@, c@), shell_section(), "DirectoryClass"@, DIRECTORY_CLASS@, false);
    }
    assert(model_wf(m7) && spec_confirm(m7) == spec_confirm(m));
    lemma_confirm_after_set(m7, true);
    lemma_confirm_after_set(m7, false);
}

/// An edit outside `Prop5` keeps the model well formed and its tags as they were.
proof fn lemma_tags_untouched(m: IniModel, section: Seq<char>, key: Seq<char>, value: Seq<char>, field: bool)
    requires
        model_wf(m),
        section != property_section(),
    ensures
        field ==> model_wf(spec_set_field(m, section, key, value)),
        field ==> spec_tags(spec_set_field(m, section, key, value)) == spec_tags(m),
        !field ==> model_wf(spec_set(m, section, key, value)),
        !field ==> spec_tags(spec_set(m, section, key, value)) == spec_tags(m),
{
    lemma_set_wf(m, section, key, value);
    lemma_remove_wf(m, section, key);
    lemma_get_after_set(m, section, key, value, property_section(), "Prop5"@);
    lemma_get_after_remove(m, section, key, property_section(), "Prop5"@);
}

/// Each tag option splits into at least one piece.
proof fn lemma_split_commas_len(ts: Seq<Seq<char>>)
    ensures
        split_commas(ts).len() >= ts.len(),
    decreases ts.len(),
{
    if ts.len() > 0 {
        lemma_split_commas_len(ts.drop_last());
        lemma_split_nonempty(ts.last(), ',');
    }
}

/// Adding tags with the `set` command (and neither removing nor clearing any)
/// keeps the tags that were there: they are read back first, in their order.
/// Where the added pieces are clean, the tags read back are exactly the
/// present ones followed by the pieces of the added tags split at commas.
pub proof fn lemma_set_add_tag_keeps_present(m: IniModel, o: SetOptions)
    requires
        model_wf(m),
        o.add_tag matches Some(t) && t.len() > 0,
        o.remove_tag is None,
        !o.clear_tag,
    ensures
        spec_tags(m) matches Some(t0) ==> (spec_tags(spec_apply_set(m, o)) matches Some(t1) && t0.len()
            <= t1.len() && t1.take(t0.len() as int) == t0),
        (forall|i: int| 0 <= i < split_commas(views(o.add_tag->0@)).len()
            ==> clean_tag(#[trigger] split_commas(views(o.add_tag->0@))[i])) ==> spec_tags(
            spec_apply_set(m, o),
        ) == Some(
            match spec_tags(m) {
                Some(t0) => t0 + split_commas(views(o.add_tag->0@)),
                None => split_commas(views(o.add_tag->0@)),
            },
        ),
{
    lemma_other_keys();
    let pieces = split_commas(views(o.add_tag->0@));
    let m1 = match o.name {
        Some(n) => spec_set_field(m, shell_section(), "LocalizedResourceName"@, n@),
        None => m,
    };
    if let Some(n) = o.name {
        lemma_tags_untouched(m, shell_section(), "LocalizedResourceName"@, n@, true);
    }
    let m2 = match o.icon {
        Some(i) => if icon_well_formed(i@) {
            spec_set_field(m1, shell_section(), "IconResource"@, i@)
        } else {
            m1
        },
        None => m1,
    };
    if let Some(i) = o.icon {
        lemma_tags_untouched(m1, shell_section(), "IconResource"@, i@, true);
    }
    let m3 = match o.tip {
        Some(t) => spec_set_field(m2, shell_section(), "InfoTip"@, t@),
        None => m2,
    };
    if let Some(t) = o.tip {
        lemma_tags_untouched(m2, shell_section(), "InfoTip"@, t@, true);
    }
    assert(model_wf(m3) && spec_tags(m3) == spec_tags(m));
    let m4 = spec_set(m3, property_section(), "Prop5"@, tags_value(tags_after_add(m3, pieces)));
    lemma_set_wf(m3, property_section(), "Prop5"@, tags_value(tags_after_add(m3, pieces)));
    lemma_split_commas_len(views(o.add_tag->0@));
    lemma_add_keeps_present(m3, pieces);
    if forall|i: int| 0 <= i < pieces.len() ==> clean_tag(#[trigger] pieces[i]) {
        lemma_tags_after_add(m3, pieces);
    }
    let m7 = match o.run {
        Some(c) => spec_set(
            spec_set_field(m4, execution_section(), "Target"@, c@),
            shell_section(),
            "DirectoryClass"@,
            DIRECTORY_CLASS@,
        ),
        None => m4,
    };
    if let Some(c) = o.run {
        lemma_tags_untouched(m4, execution_section(), "Target"@, c@, true);
        lemma_tags_untouched(
            spec_set_field(m4, execution_section(), "Target"@, c@),
            shell_section(),
            "DirectoryClass"@,
            DIRECTORY_CLASS@,
            false,
        );
    }
    lemma_tags_untouched(m7, execution_section(), "ConfirmExecution"@, "1"@, false);
    lemma_tags_untouched(m7, execution_section(), "ConfirmExecution"@, "0"@, false);
    assert(spec_tags(spec_apply_set(m, o)) == spec_tags(m4));
}

/// Makes the edits of the `set` command, as `spec_apply_set` says.
pub fn apply_set(ini: &mut Ini, options: SetOptions)
    requires
        old(ini).wf(),
    ensures
        final(ini).wf(),
        final(ini)@ == spec_apply_set(old(ini)@, options),
{
    let ghost o = options;
    let SetOptions { name, icon, tip, add_tag, remove_tag, clear_tag, run, confirm } = options;
    if let Some(n) = name {
        ini.set_localized_resource_name(n);
    }
    if let Some(i) = icon {
        let ok = match icon_resource_file(i.as_str()) {
            Some(_) => true,
            None => false,
        };
        if ok {
            ini.set_icon_resource(i);
        }
    }
    if let Some(t) = tip {
        ini.set_info_tip(t);
    }
    if let Some(t) = add_tag {
        if t.len() > 0 {
            let pieces = split_tags(&t);
            ini.add_tags(&pieces);
        }
    }
    if let Some(t) = remove_tag {
        if t.len() > 0 {
            let pieces = split_tags(&t);
            ini.remove_tags(&pieces);
        }
    }
    if clear_tag {
        ini.clear_tags();
    }
    if let Some(c) = run {
        ini.set_execution(c);
        ini.set_directory_class();
    }
    if confirm {
        ini.set_confirm_execution(true);
    } else if ini.confirm_execution().is_some() {
        ini.set_confirm_execution(false);
    }
}

} // verus!
