//! What the answers to the prompts of the interactive editor mean.
use vstd::prelude::*;
use crate::tags::{split_on, split_trimmed};
use crate::text::{chars_of, lower_ascii, lower_char, string_of, to_lower_char, trim, trim_chars, views};

verus! {

/// What an answer to a value prompt asks for: nothing to change where it is
/// blank; the empty value (clearing the field) for `-`; the trimmed answer otherwise.
pub open spec fn spec_value_answer(input: Seq<char>) -> Option<Seq<char>> {
    let s = trim(input);
    if s.len() == 0 {
        None
    } else if s == seq!['-'] {
        Some(seq![])
    } else {
        Some(s)
    }
}

/// What an answer to a value prompt asks for, as `spec_value_answer` says.
pub fn value_answer(input: &str) -> (answer: Option<String>)
    ensures
        answer matches Some(a) ==> spec_value_answer(input@) == Some(a@),
        answer is None ==> spec_value_answer(input@) is None,
{
    let cs = chars_of(input);
    let s = trim_chars(&cs);
    if s.len() == 0 {
        return None;
    }
    if s.len() == 1 && s[0] == '-' {
        assert(s@ =~= seq!['-']);
        return Some(String::new());
    }
    assert(s@ != seq!['-']) by {
        if s@ == seq!['-'] {
            assert(s@[0] == '-');
        }
    }
    Some(string_of(&s))
}

/// The items of an answer to a list prompt: the pieces between commas, trimmed,
/// without the empty ones.
pub open spec fn spec_list_answer(input: Seq<char>) -> Seq<Seq<char>> {
    split_on(trim(input), ',').map_values(|t: Seq<char>| trim(t)).filter(|t: Seq<char>| t.len() > 0)
}

/// The items of an answer to a list prompt, as `spec_list_answer` says.
pub fn list_answer(input: &str) -> (items: Vec<String>)
    ensures
        views(items@) == spec_list_answer(input@),
{
    let cs = chars_of(input);
    let s = trim_chars(&cs);
    let pieces = split_trimmed(&s, ',');
    let ghost p = views(pieces@);
    let ghost pred = |t: Seq<char>| t.len() > 0;
    let mut items: Vec<String> = Vec::new();
    let mut i: usize = 0;
    assert(p.take(0) =~= Seq::<Seq<char>>::empty());
    while i < pieces.len()
        invariant
            i <= pieces@.len(),
            p == views(pieces@),
            pred == (|t: Seq<char>| t.len() > 0),
            views(items@) == p.take(i as int).filter(pred),
        decreases pieces@.len() - i,
    {
        reveal_with_fuel(Seq::filter, 1);
        assert(p.take(i + 1).drop_last() =~= p.take(i as int));
        assert(p[i as int] == pieces@[i as int]@);
        if pieces[i].as_str().unicode_len() > 0 {
            let ghost before = views(items@);
            items.push(pieces[i].clone());
            assert(views(items@) =~= before.push(p[i as int]));
        }
        i += 1;
    }
    assert(p.take(p.len() as int) == p);
    items
}

/// What an answer to a yes/no prompt asks for: it is trimmed and compared
/// without regard to ASCII case; `y` or `yes` is yes, `n` or `no` is no, and
/// anything else (a blank answer too) keeps the present setting.
pub open spec fn spec_yes_no_answer(input: Seq<char>) -> Option<bool> {
    let a = lower_ascii(trim(input));
    if a == seq!['y'] || a == seq!['y', 'e', 's'] {
        Some(true)
    } else if a == seq!['n'] || a == seq!['n', 'o'] {
        Some(false)
    } else {
        None
    }
}

/// What an answer to a yes/no prompt asks for, as `spec_yes_no_answer` says.
pub fn yes_no_answer(input: &str) -> (answer: Option<bool>)
    ensures
        answer == spec_yes_no_answer(input@),
{
    let cs = chars_of(input);
    let t = trim_chars(&cs);
    let mut a: Vec<char> = Vec::new();
    let mut i: usize = 0;
    while i < t.len()
        invariant
            i <= t@.len(),
            a@ == lower_ascii(t@.take(i as int)),
        decreases t@.len() - i,
    {
        a.push(to_lower_char(t[i]));
        assert(lower_ascii(t@.take(i + 1)) =~= lower_ascii(t@.take(i as int)).push(lower_char(t@[i as int])));
        i += 1;
    }
    assert(t@.take(t@.len() as int) == t@);
    let yes = (a.len() == 1 && a[0] == 'y') || (a.len() == 3 && a[0] == 'y' && a[1] == 'e' && a[2] == 's');
    let no = (a.len() == 1 && a[0] == 'n') || (a.len() == 2 && a[0] == 'n' && a[1] == 'o');
    proof {
        let w = a@;
        if w.len() == 1 {
            assert(w == seq![w[0]]);
        } else if w.len() == 2 {
            assert(w == seq![w[0], w[1]]);
        } else if w.len() == 3 {
            assert(w == seq![w[0], w[1], w[2]]);
        }
    }
    if yes {
        Some(true)
    } else if no {
        Some(false)
    } else {
        None
    }
}

} // verus!
